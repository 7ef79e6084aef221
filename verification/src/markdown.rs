//! The Markdown report of a scan.
//!
//! Sizes in megabytes and percentages are fractional, and the scan date is
//! the clock's reading; they reach this module already written out (the
//! date, and `ReportFigures` with one figure per row where a table has one
//! per row).

use vstd::prelude::*;
use crate::scan::{RepoStats, LanguageStat, JumboFile};
use crate::storage::FolderStat;
use crate::duplicates::DuplicateGroup;
use crate::text::{decimal, push_str, push_decimal, lemma_texts_differ};
use crate::report::{ReportFigures, figures_fit};

verus! {

/// The most duplicate groups the report lists.
pub const MAX_LISTED_GROUPS: usize = 15;

/// `n` in decimal.
pub open spec fn num(n: nat) -> Seq<char> {
    decimal(n)
}

// ---------------------------------------------------------------------------
// Sections
// ---------------------------------------------------------------------------

/// The title and the summary lines.
pub open spec fn md_header(stats: RepoStats, date: Seq<char>, f: ReportFigures) -> Seq<char> {
    "# ⚡ Ferrum-Scan Repository Report\n\n- **Scan Date**: "@ + date
        + "\n- **Root Directory**: `"@ + stats.root_path@ + "`\n- **Total Files**: `"@ + num(
        stats.total_files as nat,
    ) + "`\n- **Total Size**: `"@ + f.total_size_mb@ + " MB` ("@ + num(stats.total_bytes as nat)
        + " bytes)\n- **Scan Duration**: `"@ + num(stats.scan_duration_ms as nat) + " ms`\n\n"@
}

/// The row of one language.
pub open spec fn language_row(l: LanguageStat, share: Seq<char>) -> Seq<char> {
    "| **"@ + l.name@ + "** | "@ + num(l.files as nat) + " | "@ + num(l.code_lines as nat)
        + " | "@ + num(l.blank_lines as nat) + " | "@ + num(l.comment_lines as nat) + " | "@
        + num(l.total_lines as nat) + " | "@ + share + "% |\n"@
}

/// The rows of the first `i` languages.
pub open spec fn language_rows(ls: Seq<LanguageStat>, shares: Seq<String>, i: int) -> Seq<char>
    decreases i,
{
    if i <= 0 {
        Seq::empty()
    } else {
        language_rows(ls, shares, i - 1) + language_row(ls[i - 1], shares[i - 1]@)
    }
}

/// The language table.
pub open spec fn md_languages(stats: RepoStats, f: ReportFigures) -> Seq<char> {
    "## 📊 Language Breakdown\n\n| Language | Files | Code LOC | Blank | Comment | Total LOC | Share % |\n| :--- | :---: | :---: | :---: | :---: | :---: | :---: |\n"@
        + language_rows(stats.languages@, f.language_shares@, stats.languages@.len() as int)
        + language_total_row(stats)
}

/// The closing row of the language table, with the totals.
pub open spec fn language_total_row(stats: RepoStats) -> Seq<char> {
    "| **TOTAL** | **"@ + num(stats.total_files as nat) + "** | **"@ + num(
        stats.total_code_lines as nat,
    ) + "** | **"@ + num(stats.total_blank_lines as nat) + "** | **"@ + num(
        stats.total_comment_lines as nat,
    ) + "** | **"@ + num(stats.total_lines as nat) + "** | **100%** |\n\n"@
}

/// The row of one folder.
pub open spec fn folder_row(d: FolderStat, mb: Seq<char>) -> Seq<char> {
    "| `"@ + d.relative_path@ + "` | "@ + num(d.files_count as nat) + " | "@ + mb + " MB |\n"@
}

/// The rows of the first `i` folders.
pub open spec fn folder_rows(ds: Seq<FolderStat>, mbs: Seq<String>, i: int) -> Seq<char>
    decreases i,
{
    if i <= 0 {
        Seq::empty()
    } else {
        folder_rows(ds, mbs, i - 1) + folder_row(ds[i - 1], mbs[i - 1]@)
    }
}

/// The storage section, present where the breakdown was made.
pub open spec fn md_storage(stats: RepoStats, f: ReportFigures) -> Seq<char> {
    match stats.top_folders {
        Some(ds) => "## 📂 Storage Breakdown (Top Folders)\n\n| Folder Name | Files | Size (MB) |\n| :--- | :---: | :---: |\n"@
            + folder_rows(ds@, f.folder_sizes_mb@, ds@.len() as int) + "\n"@,
        None => Seq::empty(),
    }
}

/// The first `i` paths of a group, each in backquotes, joined by `<br>`.
pub open spec fn joined_paths(files: Seq<String>, i: int) -> Seq<char>
    decreases i,
{
    if i <= 0 {
        Seq::empty()
    } else if i == 1 {
        "`"@ + files[0]@ + "`"@
    } else {
        joined_paths(files, i - 1) + "<br>"@ + "`"@ + files[i - 1]@ + "`"@
    }
}

/// The row of one duplicate group.
pub open spec fn group_row(g: DuplicateGroup, mb: Seq<char>) -> Seq<char> {
    "| "@ + mb + " MB | "@ + num(g.files@.len()) + " | "@ + joined_paths(
        g.files@,
        g.files@.len() as int,
    ) + " |\n"@
}

/// The rows of the first `i` duplicate groups.
pub open spec fn group_rows(gs: Seq<DuplicateGroup>, mbs: Seq<String>, i: int) -> Seq<char>
    decreases i,
{
    if i <= 0 {
        Seq::empty()
    } else {
        group_rows(gs, mbs, i - 1) + group_row(gs[i - 1], mbs[i - 1]@)
    }
}

/// How many duplicate groups the table lists.
pub open spec fn listed_groups(n: nat) -> int {
    if n < MAX_LISTED_GROUPS {
        n as int
    } else {
        MAX_LISTED_GROUPS as int
    }
}

/// The duplicates section, present where the search ran: the number of
/// groups, the wasted space and a table of at most fifteen groups.
pub open spec fn md_duplicates(stats: RepoStats, f: ReportFigures) -> Seq<char> {
    match stats.duplicate_groups {
        Some(gs) => "## 👯 Duplicate Files Detector\n\n- **Total Duplicate Groups**: `"@ + num(
            gs@.len(),
        ) + "`\n- **Wasted Storage Space**: `"@ + f.wasted_mb@ + " MB`\n\n"@ + if gs@.len() > 0 {
            "| Size / File | Copies | Paths |\n| :---: | :---: | :--- |\n"@ + group_rows(
                gs@,
                f.group_sizes_mb@,
                listed_groups(gs@.len()),
            ) + "\n"@
        } else {
            Seq::empty()
        },
        None => Seq::empty(),
    }
}

/// The row of one contributor.
pub open spec fn contributor_row(c: (String, usize)) -> Seq<char> {
    "| "@ + c.0@ + " | "@ + num(c.1 as nat) + " |\n"@
}

/// The rows of the first `i` contributors.
pub open spec fn contributor_rows(cs: Seq<(String, usize)>, i: int) -> Seq<char>
    decreases i,
{
    if i <= 0 {
        Seq::empty()
    } else {
        contributor_rows(cs, i - 1) + contributor_row(cs[i - 1])
    }
}

/// The git section.
pub open spec fn md_git(stats: RepoStats) -> Seq<char> {
    let g = stats.git_health;
    "## 🩺 Git Health Inspector\n\n"@ + if g.is_git_repo {
        "- **Git Repo**: Yes\n- **Total Commits**: `"@ + num(g.commit_count as nat)
            + "`\n- **Contributors**: `"@ + num(g.total_contributors as nat) + "`\n"@ + match g.last_commit_date {
            Some(d) => "- **Last Commit**: `"@ + d@ + "`\n"@,
            None => Seq::empty(),
        } + if g.top_contributors@.len() > 0 {
            "\n### Top Contributors\n\n| Contributor | Commits |\n| :--- | :---: |\n"@
                + contributor_rows(g.top_contributors@, g.top_contributors@.len() as int)
        } else {
            Seq::empty()
        } + "\n"@
    } else {
        "⚠️ Not a git repository.\n\n"@
    }
}

/// The row of one jumbo file.
pub open spec fn jumbo_row(j: JumboFile, mb: Seq<char>) -> Seq<char> {
    "| `"@ + j.path@ + "` | "@ + mb + " MB |\n"@
}

/// The rows of the first `i` jumbo files.
pub open spec fn jumbo_rows(js: Seq<JumboFile>, mbs: Seq<String>, i: int) -> Seq<char>
    decreases i,
{
    if i <= 0 {
        Seq::empty()
    } else {
        jumbo_rows(js, mbs, i - 1) + jumbo_row(js[i - 1], mbs[i - 1]@)
    }
}

/// The jumbo files section, present where there are any.
pub open spec fn md_jumbo(stats: RepoStats, f: ReportFigures) -> Seq<char> {
    if stats.jumbo_files@.len() > 0 {
        "## 🚨 Jumbo Files (> threshold)\n\n| File Path | Size (MB) |\n| :--- | :---: |\n"@
            + jumbo_rows(stats.jumbo_files@, f.jumbo_sizes_mb@, stats.jumbo_files@.len() as int)
            + "\n"@
    } else {
        Seq::empty()
    }
}

/// The first `i` insights as list items.
pub open spec fn insight_items(is: Seq<String>, i: int) -> Seq<char>
    decreases i,
{
    if i <= 0 {
        Seq::empty()
    } else {
        insight_items(is, i - 1) + "- "@ + is[i - 1]@ + "\n"@
    }
}

/// The insights section.
pub open spec fn md_insights(stats: RepoStats) -> Seq<char> {
    "## 💡 Repository Insights\n\n"@ + insight_items(stats.insights@, stats.insights@.len() as int)
        + "\n"@
}

/// The Markdown report: header, languages, storage, duplicates, git, jumbo
/// files and insights, in that order.
pub open spec fn markdown_report(stats: RepoStats, date: Seq<char>, f: ReportFigures) -> Seq<char> {
    md_header(stats, date, f) + md_languages(stats, f) + md_storage(stats, f) + md_duplicates(stats, f)
        + md_git(stats) + md_jumbo(stats, f) + md_insights(stats)
}

// ---------------------------------------------------------------------------
// Rows follow the header
// ---------------------------------------------------------------------------

/// The cells joined by ` | `.
pub open spec fn joined_cells(cells: Seq<Seq<char>>) -> Seq<char>
    decreases cells.len(),
{
    if cells.len() == 0 {
        Seq::empty()
    } else if cells.len() == 1 {
        cells[0]
    } else {
        joined_cells(cells.drop_last()) + " | "@ + cells.last()
    }
}

/// A Markdown table row holding the given cells.
pub open spec fn table_row(cells: Seq<Seq<char>>) -> Seq<char> {
    "| "@ + joined_cells(cells) + " |\n"@
}

/// The column names of the language table.
pub open spec fn language_columns() -> Seq<Seq<char>> {
    seq!["Language"@, "Files"@, "Code LOC"@, "Blank"@, "Comment"@, "Total LOC"@, "Share %"@]
}

/// What a language shows in the column of the given name: its name in
/// bold, its files, code, blank, comment and total lines, and its share.
pub open spec fn language_column(l: LanguageStat, share: Seq<char>, column: Seq<char>) -> Seq<char> {
    if column == "Language"@ {
        "**"@ + l.name@ + "**"@
    } else if column == "Files"@ {
        num(l.files as nat)
    } else if column == "Code LOC"@ {
        num(l.code_lines as nat)
    } else if column == "Blank"@ {
        num(l.blank_lines as nat)
    } else if column == "Comment"@ {
        num(l.comment_lines as nat)
    } else if column == "Total LOC"@ {
        num(l.total_lines as nat)
    } else {
        share + "%"@
    }
}

/// Seven cells joined by ` | `, written out.
proof fn lemma_joined_seven(c: Seq<Seq<char>>)
    requires
        c.len() == 7,
    ensures
        joined_cells(c) == c[0] + " | "@ + c[1] + " | "@ + c[2] + " | "@ + c[3] + " | "@ + c[4]
            + " | "@ + c[5] + " | "@ + c[6],
{
    reveal_with_fuel(joined_cells, 8);
    let c6 = c.drop_last();
    let c5 = c6.drop_last();
    let c4 = c5.drop_last();
    let c3 = c4.drop_last();
    let c2 = c3.drop_last();
    let c1 = c2.drop_last();
    assert(c1.len() == 1 && c1[0] == c[0]);
    assert(joined_cells(c2) == c[0] + " | "@ + c[1]);
    assert(joined_cells(c3) == c[0] + " | "@ + c[1] + " | "@ + c[2]);
    assert(joined_cells(c4) == c[0] + " | "@ + c[1] + " | "@ + c[2] + " | "@ + c[3]);
    assert(joined_cells(c5) == c[0] + " | "@ + c[1] + " | "@ + c[2] + " | "@ + c[3] + " | "@ + c[4]);
    assert(joined_cells(c6) == c[0] + " | "@ + c[1] + " | "@ + c[2] + " | "@ + c[3] + " | "@ + c[4]
        + " | "@ + c[5]);
}

/// The column names of the language table differ from one another.
pub proof fn lemma_language_column_names_differ()
    ensures
        "Language"@ != "Files"@,
        "Language"@ != "Code LOC"@,
        "Language"@ != "Blank"@,
        "Language"@ != "Comment"@,
        "Language"@ != "Total LOC"@,
        "Language"@ != "Share %"@,
        "Files"@ != "Code LOC"@,
        "Files"@ != "Blank"@,
        "Files"@ != "Comment"@,
        "Files"@ != "Total LOC"@,
        "Files"@ != "Share %"@,
        "Code LOC"@ != "Blank"@,
        "Code LOC"@ != "Comment"@,
        "Code LOC"@ != "Total LOC"@,
        "Code LOC"@ != "Share %"@,
        "Blank"@ != "Comment"@,
        "Blank"@ != "Total LOC"@,
        "Blank"@ != "Share %"@,
        "Comment"@ != "Total LOC"@,
        "Comment"@ != "Share %"@,
        "Total LOC"@ != "Share %"@,
{
    lemma_texts_differ();
    reveal_strlit("Language");
    reveal_strlit("Files");
    reveal_strlit("Code LOC");
    reveal_strlit("Blank");
    reveal_strlit("Comment");
    reveal_strlit("Total LOC");
    reveal_strlit("Share %");
    assert("Language"@.len() == 8);
    assert("Files"@.len() == 5);
    assert("Code LOC"@.len() == 8);
    assert("Blank"@.len() == 5);
    assert("Comment"@.len() == 7);
    assert("Total LOC"@.len() == 9);
    assert("Share %"@.len() == 7);
    assert("Language"@[0] == 'L');
    assert("Code LOC"@[0] == 'C');
    assert("Files"@[0] == 'F');
    assert("Blank"@[0] == 'B');
    assert("Comment"@[0] == 'C');
    assert("Share %"@[0] == 'S');
}

/// What each named column of the language table shows.
proof fn lemma_language_column_values(l: LanguageStat, share: Seq<char>)
    ensures
        language_column(l, share, "Language"@) == "**"@ + l.name@ + "**"@,
        language_column(l, share, "Files"@) == num(l.files as nat),
        language_column(l, share, "Code LOC"@) == num(l.code_lines as nat),
        language_column(l, share, "Blank"@) == num(l.blank_lines as nat),
        language_column(l, share, "Comment"@) == num(l.comment_lines as nat),
        language_column(l, share, "Total LOC"@) == num(l.total_lines as nat),
        language_column(l, share, "Share %"@) == share + "%"@,
{
    lemma_language_column_names_differ();
}

/// `text` in bold.
pub open spec fn bold(text: Seq<char>) -> Seq<char> {
    "**"@ + text + "**"@
}

/// What the totals row shows in the column of the given name: `TOTAL`,
/// then the scan's files, code, blank, comment and total lines, and 100%,
/// all in bold.
pub open spec fn total_column(stats: RepoStats, column: Seq<char>) -> Seq<char> {
    if column == "Language"@ {
        bold("TOTAL"@)
    } else if column == "Files"@ {
        bold(num(stats.total_files as nat))
    } else if column == "Code LOC"@ {
        bold(num(stats.total_code_lines as nat))
    } else if column == "Blank"@ {
        bold(num(stats.total_blank_lines as nat))
    } else if column == "Comment"@ {
        bold(num(stats.total_comment_lines as nat))
    } else if column == "Total LOC"@ {
        bold(num(stats.total_lines as nat))
    } else {
        bold("100%"@)
    }
}

/// The totals row of the language table shows, column by column, what the
/// header's column name says, followed by an empty line.
#[verifier::spinoff_prover]
#[verifier::rlimit(40)]
pub proof fn lemma_total_row_follows_header(stats: RepoStats)
    ensures
        language_total_row(stats) == table_row(
            language_columns().map_values(|c: Seq<char>| total_column(stats, c)),
        ) + "\n"@,
{
    let cols = language_columns();
    let vals = cols.map_values(|c: Seq<char>| total_column(stats, c));
    lemma_joined_seven(vals);
    let f = num(stats.total_files as nat);
    let c = num(stats.total_code_lines as nat);
    let b = num(stats.total_blank_lines as nat);
    let m = num(stats.total_comment_lines as nat);
    let t = num(stats.total_lines as nat);
    assert(vals =~= seq![bold("TOTAL"@), bold(f), bold(c), bold(b), bold(m), bold(t), bold("100%"@)]) by {
        lemma_language_column_names_differ();
        assert(vals[0] == total_column(stats, "Language"@));
        assert(vals[1] == total_column(stats, "Files"@));
        assert(vals[2] == total_column(stats, "Code LOC"@));
        assert(vals[3] == total_column(stats, "Blank"@));
        assert(vals[4] == total_column(stats, "Comment"@));
        assert(vals[5] == total_column(stats, "Total LOC"@));
        assert(vals[6] == total_column(stats, "Share %"@));
    }
    reveal_strlit("| **TOTAL** | **");
    reveal_strlit("** | **");
    reveal_strlit("** | **100%** |\n\n");
    reveal_strlit("| ");
    reveal_strlit(" | ");
    reveal_strlit(" |\n");
    reveal_strlit("\n");
    reveal_strlit("**");
    reveal_strlit("TOTAL");
    reveal_strlit("100%");
    assert(language_total_row(stats) =~= table_row(vals) + "\n"@);
}

/// The header row of the language table names its columns.
#[verifier::spinoff_prover]
#[verifier::rlimit(40)]
proof fn lemma_language_header_row()
    ensures
        "| Language | Files | Code LOC | Blank | Comment | Total LOC | Share % |\n"@ == table_row(
            language_columns(),
        ),
{
    lemma_joined_seven(language_columns());
    reveal_strlit("| Language | Files | Code LOC | Blank | Comment | Total LOC | Share % |\n");
    reveal_strlit("Language");
    reveal_strlit("Files");
    reveal_strlit("Code LOC");
    reveal_strlit("Blank");
    reveal_strlit("Comment");
    reveal_strlit("Total LOC");
    reveal_strlit("Share %");
    reveal_strlit("| ");
    reveal_strlit(" | ");
    reveal_strlit(" |\n");
    assert("| Language | Files | Code LOC | Blank | Comment | Total LOC | Share % |\n"@ =~= table_row(language_columns()));
}

/// The language table's header row names its columns, and each language's
/// row shows, column by column, what that column's name says.
#[verifier::spinoff_prover]
#[verifier::rlimit(40)]
pub proof fn lemma_language_rows_follow_header(l: LanguageStat, share: Seq<char>)
    ensures
        "| Language | Files | Code LOC | Blank | Comment | Total LOC | Share % |\n"@ == table_row(
            language_columns(),
        ),
        language_row(l, share) == table_row(
            language_columns().map_values(|c: Seq<char>| language_column(l, share, c)),
        ),
{
    let cols = language_columns();
    let vals = cols.map_values(|c: Seq<char>| language_column(l, share, c));
    lemma_joined_seven(cols);
    lemma_joined_seven(vals);
    lemma_language_column_values(l, share);
    assert(vals[0] == language_column(l, share, "Language"@));
    assert(vals[1] == language_column(l, share, "Files"@));
    assert(vals[2] == language_column(l, share, "Code LOC"@));
    assert(vals[3] == language_column(l, share, "Blank"@));
    assert(vals[4] == language_column(l, share, "Comment"@));
    assert(vals[5] == language_column(l, share, "Total LOC"@));
    assert(vals[6] == language_column(l, share, "Share %"@));
    assert(language_row(l, share) =~= table_row(vals)) by {
        reveal_strlit("| **");
        reveal_strlit("** | ");
        reveal_strlit(" | ");
        reveal_strlit("% |\n");
        reveal_strlit("| ");
        reveal_strlit(" |\n");
        reveal_strlit("**");
        reveal_strlit("%");
    }
    lemma_language_header_row();
}

/// The language section is its title, the header row naming the columns,
/// the alignment row, a row per language and the totals.
#[verifier::spinoff_prover]
#[verifier::rlimit(40)]
pub proof fn lemma_language_table_layout(stats: RepoStats, f: ReportFigures)
    ensures
        md_languages(stats, f) == "## 📊 Language Breakdown\n\n"@ + table_row(language_columns())
            + "| :--- | :---: | :---: | :---: | :---: | :---: | :---: |\n"@ + language_rows(
            stats.languages@,
            f.language_shares@,
            stats.languages@.len() as int,
        ) + language_total_row(stats),
{
    lemma_language_header_row();
    reveal_strlit("## 📊 Language Breakdown\n\n");
    reveal_strlit("| Language | Files | Code LOC | Blank | Comment | Total LOC | Share % |\n");
    reveal_strlit("| :--- | :---: | :---: | :---: | :---: | :---: | :---: |\n");
    reveal_strlit(
        "## 📊 Language Breakdown\n\n| Language | Files | Code LOC | Blank | Comment | Total LOC | Share % |\n| :--- | :---: | :---: | :---: | :---: | :---: | :---: |\n",
    );
    assert("## 📊 Language Breakdown\n\n| Language | Files | Code LOC | Blank | Comment | Total LOC | Share % |\n| :--- | :---: | :---: | :---: | :---: | :---: | :---: |\n"@
        =~= "## 📊 Language Breakdown\n\n"@
        + "| Language | Files | Code LOC | Blank | Comment | Total LOC | Share % |\n"@
        + "| :--- | :---: | :---: | :---: | :---: | :---: | :---: |\n"@);
}

// ---------------------------------------------------------------------------
// Implementation
// ---------------------------------------------------------------------------

fn push_language_rows(s: &mut String, ls: &Vec<LanguageStat>, shares: &Vec<String>)
    requires
        shares@.len() == ls@.len(),
    ensures
        final(s)@ == old(s)@ + language_rows(ls@, shares@, ls@.len() as int),
{
    let mut i: usize = 0;
    while i < ls.len()
        invariant
            shares@.len() == ls@.len(),
            i <= ls@.len(),
            s@ == old(s)@ + language_rows(ls@, shares@, i as int),
        decreases ls@.len() - i,
    {
        let l = &ls[i];
        let ghost before = s@;
        push_str(s, "| **");
        push_str(s, l.name.as_str());
        push_str(s, "** | ");
        push_decimal(s, l.files as u128);
        push_str(s, " | ");
        push_decimal(s, l.code_lines as u128);
        push_str(s, " | ");
        push_decimal(s, l.blank_lines as u128);
        push_str(s, " | ");
        push_decimal(s, l.comment_lines as u128);
        push_str(s, " | ");
        push_decimal(s, l.total_lines as u128);
        push_str(s, " | ");
        push_str(s, shares[i].as_str());
        push_str(s, "% |\n");
        proof {
            assert(s@ =~= before + language_row(ls@[i as int], shares@[i as int]@));
        }
        i = i + 1;
    }
}

fn push_folder_rows(s: &mut String, ds: &Vec<FolderStat>, mbs: &Vec<String>)
    requires
        mbs@.len() == ds@.len(),
    ensures
        final(s)@ == old(s)@ + folder_rows(ds@, mbs@, ds@.len() as int),
{
    let mut i: usize = 0;
    while i < ds.len()
        invariant
            mbs@.len() == ds@.len(),
            i <= ds@.len(),
            s@ == old(s)@ + folder_rows(ds@, mbs@, i as int),
        decreases ds@.len() - i,
    {
        let d = &ds[i];
        let ghost before = s@;
        push_str(s, "| `");
        push_str(s, d.relative_path.as_str());
        push_str(s, "` | ");
        push_decimal(s, d.files_count as u128);
        push_str(s, " | ");
        push_str(s, mbs[i].as_str());
        push_str(s, " MB |\n");
        proof {
            assert(s@ =~= before + folder_row(ds@[i as int], mbs@[i as int]@));
        }
        i = i + 1;
    }
}

fn push_joined_paths(s: &mut String, files: &Vec<String>)
    ensures
        final(s)@ == old(s)@ + joined_paths(files@, files@.len() as int),
{
    let mut i: usize = 0;
    while i < files.len()
        invariant
            i <= files@.len(),
            s@ == old(s)@ + joined_paths(files@, i as int),
        decreases files@.len() - i,
    {
        let ghost before = s@;
        if i > 0 {
            push_str(s, "<br>");
        }
        push_str(s, "`");
        push_str(s, files[i].as_str());
        push_str(s, "`");
        proof {
            if i == 0 {
                assert(joined_paths(files@, 0) == Seq::<char>::empty());
                assert(s@ =~= before + joined_paths(files@, 1));
            } else {
                assert(s@ =~= before + "<br>"@ + "`"@ + files@[i as int]@ + "`"@);
            }
        }
        i = i + 1;
    }
}

fn push_group_rows(s: &mut String, gs: &Vec<DuplicateGroup>, mbs: &Vec<String>, n: usize)
    requires
        mbs@.len() == gs@.len(),
        n <= gs@.len(),
    ensures
        final(s)@ == old(s)@ + group_rows(gs@, mbs@, n as int),
{
    let mut i: usize = 0;
    while i < n
        invariant
            mbs@.len() == gs@.len(),
            n <= gs@.len(),
            i <= n,
            s@ == old(s)@ + group_rows(gs@, mbs@, i as int),
        decreases n - i,
    {
        let g = &gs[i];
        let ghost before = s@;
        push_str(s, "| ");
        push_str(s, mbs[i].as_str());
        push_str(s, " MB | ");
        push_decimal(s, g.files.len() as u128);
        push_str(s, " | ");
        push_joined_paths(s, &g.files);
        push_str(s, " |\n");
        proof {
            assert(s@ =~= before + group_row(gs@[i as int], mbs@[i as int]@));
        }
        i = i + 1;
    }
}

fn push_contributor_rows(s: &mut String, cs: &Vec<(String, usize)>)
    ensures
        final(s)@ == old(s)@ + contributor_rows(cs@, cs@.len() as int),
{
    let mut i: usize = 0;
    while i < cs.len()
        invariant
            i <= cs@.len(),
            s@ == old(s)@ + contributor_rows(cs@, i as int),
        decreases cs@.len() - i,
    {
        let ghost before = s@;
        push_str(s, "| ");
        push_str(s, cs[i].0.as_str());
        push_str(s, " | ");
        push_decimal(s, cs[i].1 as u128);
        push_str(s, " |\n");
        proof {
            assert(s@ =~= before + contributor_row(cs@[i as int]));
        }
        i = i + 1;
    }
}

fn push_jumbo_rows(s: &mut String, js: &Vec<JumboFile>, mbs: &Vec<String>)
    requires
        mbs@.len() == js@.len(),
    ensures
        final(s)@ == old(s)@ + jumbo_rows(js@, mbs@, js@.len() as int),
{
    let mut i: usize = 0;
    while i < js.len()
        invariant
            mbs@.len() == js@.len(),
            i <= js@.len(),
            s@ == old(s)@ + jumbo_rows(js@, mbs@, i as int),
        decreases js@.len() - i,
    {
        let ghost before = s@;
        push_str(s, "| `");
        push_str(s, js[i].path.as_str());
        push_str(s, "` | ");
        push_str(s, mbs[i].as_str());
        push_str(s, " MB |\n");
        proof {
            assert(s@ =~= before + jumbo_row(js@[i as int], mbs@[i as int]@));
        }
        i = i + 1;
    }
}

fn push_insight_items(s: &mut String, is: &Vec<String>)
    ensures
        final(s)@ == old(s)@ + insight_items(is@, is@.len() as int),
{
    let mut i: usize = 0;
    while i < is.len()
        invariant
            i <= is@.len(),
            s@ == old(s)@ + insight_items(is@, i as int),
        decreases is@.len() - i,
    {
        let ghost before = s@;
        push_str(s, "- ");
        push_str(s, is[i].as_str());
        push_str(s, "\n");
        proof {
            assert(s@ =~= before + "- "@ + is@[i as int]@ + "\n"@);
        }
        i = i + 1;
    }
}

fn push_md_header(md: &mut String, stats: &RepoStats, date: &str, figures: &ReportFigures)
    ensures
        final(md)@ == old(md)@ + md_header(*stats, date@, *figures),
{
    let ghost start = md@;
    push_str(md, "# ⚡ Ferrum-Scan Repository Report\n\n- **Scan Date**: ");
    push_str(md, date);
    push_str(md, "\n- **Root Directory**: `");
    push_str(md, stats.root_path.as_str());
    push_str(md, "`\n- **Total Files**: `");
    push_decimal(md, stats.total_files as u128);
    push_str(md, "`\n- **Total Size**: `");
    push_str(md, figures.total_size_mb.as_str());
    push_str(md, " MB` (");
    push_decimal(md, stats.total_bytes as u128);
    push_str(md, " bytes)\n- **Scan Duration**: `");
    push_decimal(md, stats.scan_duration_ms);
    push_str(md, " ms`\n\n");
    assert(md@ =~= start + md_header(*stats, date@, *figures));
}

fn push_md_languages(md: &mut String, stats: &RepoStats, figures: &ReportFigures)
    requires
        figures_fit(*stats, *figures),
    ensures
        final(md)@ == old(md)@ + md_languages(*stats, *figures),
{
    let ghost start = md@;
    push_str(
        md,
        "## 📊 Language Breakdown\n\n| Language | Files | Code LOC | Blank | Comment | Total LOC | Share % |\n| :--- | :---: | :---: | :---: | :---: | :---: | :---: |\n",
    );
    push_language_rows(md, &stats.languages, &figures.language_shares);
    push_language_total_row(md, stats);
    assert(md@ =~= start + md_languages(*stats, *figures));
}

fn push_language_total_row(md: &mut String, stats: &RepoStats)
    ensures
        final(md)@ == old(md)@ + language_total_row(*stats),
{
    let ghost start = md@;
    push_str(md, "| **TOTAL** | **");
    push_decimal(md, stats.total_files as u128);
    push_str(md, "** | **");
    push_decimal(md, stats.total_code_lines as u128);
    push_str(md, "** | **");
    push_decimal(md, stats.total_blank_lines as u128);
    push_str(md, "** | **");
    push_decimal(md, stats.total_comment_lines as u128);
    push_str(md, "** | **");
    push_decimal(md, stats.total_lines as u128);
    push_str(md, "** | **100%** |\n\n");
    assert(md@ =~= start + language_total_row(*stats));
}

fn push_md_storage(md: &mut String, stats: &RepoStats, figures: &ReportFigures)
    requires
        figures_fit(*stats, *figures),
    ensures
        final(md)@ == old(md)@ + md_storage(*stats, *figures),
{
    let ghost start = md@;
    match &stats.top_folders {
        Some(folders) => {
            push_str(
                md,
                "## 📂 Storage Breakdown (Top Folders)\n\n| Folder Name | Files | Size (MB) |\n| :--- | :---: | :---: |\n",
            );
            push_folder_rows(md, folders, &figures.folder_sizes_mb);
            push_str(md, "\n");
        },
        None => {},
    }
    assert(md@ =~= start + md_storage(*stats, *figures));
}

fn push_md_duplicates(md: &mut String, stats: &RepoStats, figures: &ReportFigures)
    requires
        figures_fit(*stats, *figures),
    ensures
        final(md)@ == old(md)@ + md_duplicates(*stats, *figures),
{
    let ghost start = md@;
    match &stats.duplicate_groups {
        Some(groups) => {
            push_str(md, "## 👯 Duplicate Files Detector\n\n- **Total Duplicate Groups**: `");
            push_decimal(md, groups.len() as u128);
            push_str(md, "`\n- **Wasted Storage Space**: `");
            push_str(md, figures.wasted_mb.as_str());
            push_str(md, " MB`\n\n");
            let ghost b = md@;
            if groups.len() > 0 {
                push_str(md, "| Size / File | Copies | Paths |\n| :---: | :---: | :--- |\n");
                let n = if groups.len() < MAX_LISTED_GROUPS {
                    groups.len()
                } else {
                    MAX_LISTED_GROUPS
                };
                push_group_rows(md, groups, &figures.group_sizes_mb, n);
                push_str(md, "\n");
            }
            assert(md@ =~= b + if groups@.len() > 0 {
                "| Size / File | Copies | Paths |\n| :---: | :---: | :--- |\n"@ + group_rows(
                    groups@,
                    figures.group_sizes_mb@,
                    listed_groups(groups@.len()),
                ) + "\n"@
            } else {
                Seq::empty()
            });
        },
        None => {},
    }
    assert(md@ =~= start + md_duplicates(*stats, *figures));
}

fn push_md_git(md: &mut String, stats: &RepoStats)
    ensures
        final(md)@ == old(md)@ + md_git(*stats),
{
    let ghost start = md@;
    let g = &stats.git_health;
    push_str(md, "## 🩺 Git Health Inspector\n\n");
    let ghost c0 = md@;
    if g.is_git_repo {
        push_str(md, "- **Git Repo**: Yes\n- **Total Commits**: `");
        push_decimal(md, g.commit_count as u128);
        push_str(md, "`\n- **Contributors**: `");
        push_decimal(md, g.total_contributors as u128);
        push_str(md, "`\n");
        let ghost c1 = md@;
        match &g.last_commit_date {
            Some(d) => {
                push_str(md, "- **Last Commit**: `");
                push_str(md, d.as_str());
                push_str(md, "`\n");
            },
            None => {},
        }
        let ghost c2 = md@;
        assert(c2 =~= c1 + match g.last_commit_date {
            Some(d) => "- **Last Commit**: `"@ + d@ + "`\n"@,
            None => Seq::empty(),
        });
        if g.top_contributors.len() > 0 {
            push_str(md, "\n### Top Contributors\n\n| Contributor | Commits |\n| :--- | :---: |\n");
            push_contributor_rows(md, &g.top_contributors);
        }
        let ghost c3 = md@;
        assert(c3 =~= c2 + if g.top_contributors@.len() > 0 {
            "\n### Top Contributors\n\n| Contributor | Commits |\n| :--- | :---: |\n"@
                + contributor_rows(g.top_contributors@, g.top_contributors@.len() as int)
        } else {
            Seq::empty()
        });
        push_str(md, "\n");
        assert(md@ =~= c0 + ("- **Git Repo**: Yes\n- **Total Commits**: `"@ + num(g.commit_count as nat)
            + "`\n- **Contributors**: `"@ + num(g.total_contributors as nat) + "`\n"@ + match g.last_commit_date {
            Some(d) => "- **Last Commit**: `"@ + d@ + "`\n"@,
            None => Seq::empty(),
        } + if g.top_contributors@.len() > 0 {
            "\n### Top Contributors\n\n| Contributor | Commits |\n| :--- | :---: |\n"@
                + contributor_rows(g.top_contributors@, g.top_contributors@.len() as int)
        } else {
            Seq::empty()
        } + "\n"@));
    } else {
        push_str(md, "⚠️ Not a git repository.\n\n");
    }
    assert(md@ =~= start + md_git(*stats));
}

fn push_md_jumbo(md: &mut String, stats: &RepoStats, figures: &ReportFigures)
    requires
        figures_fit(*stats, *figures),
    ensures
        final(md)@ == old(md)@ + md_jumbo(*stats, *figures),
{
    let ghost start = md@;
    if stats.jumbo_files.len() > 0 {
        push_str(md, "## 🚨 Jumbo Files (> threshold)\n\n| File Path | Size (MB) |\n| :--- | :---: |\n");
        push_jumbo_rows(md, &stats.jumbo_files, &figures.jumbo_sizes_mb);
        push_str(md, "\n");
    }
    assert(md@ =~= start + md_jumbo(*stats, *figures));
}

fn push_md_insights(md: &mut String, stats: &RepoStats)
    ensures
        final(md)@ == old(md)@ + md_insights(*stats),
{
    let ghost start = md@;
    push_str(md, "## 💡 Repository Insights\n\n");
    push_insight_items(md, &stats.insights);
    push_str(md, "\n");
    assert(md@ =~= start + md_insights(*stats));
}

/// The Markdown report of a scan made at `scan_date` (`markdown_report`).
pub fn generate_markdown(stats: &RepoStats, scan_date: &str, figures: &ReportFigures) -> (r: String)
    requires
        figures_fit(*stats, *figures),
    ensures
        r@ == markdown_report(*stats, scan_date@, *figures),
{
    let mut md = String::new();
    push_md_header(&mut md, stats, scan_date, figures);
    push_md_languages(&mut md, stats, figures);
    push_md_storage(&mut md, stats, figures);
    push_md_duplicates(&mut md, stats, figures);
    push_md_git(&mut md, stats);
    push_md_jumbo(&mut md, stats, figures);
    push_md_insights(&mut md, stats);
    assert(md@ =~= markdown_report(*stats, scan_date@, *figures));
    md
}

} // verus!
