//! The report printed to the terminal: the summary lines and, drawn by
//! `comfy_table`, the tables of languages, folders, duplicates and jumbo
//! files.
//!
//! How a table is drawn depends on the terminal, so the report is stated
//! over the drawn tables as given texts (`terminal_text`); what goes into
//! each table is stated over its header and rows.

use vstd::prelude::*;
use crate::scan::{RepoStats, LanguageStat, JumboFile};
use crate::storage::FolderStat;
use crate::duplicates::DuplicateGroup;
use crate::git::GitHealth;
use crate::report::{ReportFigures, figures_fit};
use crate::markdown::{language_columns, lemma_language_column_names_differ};
use crate::text::{decimal, hex, pad_right, push_str, push_decimal, push_hex, push_padded,
    decimal_string};
use crate::tables::{TextColor, table_header, table_rows, cell_views, styled_cell, drawn_from,
    table_new, table_load_utf8_full, table_arrange_dynamic, table_set_header, table_add_row,
    table_render};

verus! {

/// The most duplicate groups the terminal table lists.
pub const MAX_SHOWN_GROUPS: usize = 10;

/// The width of the name column in the list of top contributors.
pub const CONTRIBUTOR_NAME_WIDTH: usize = 20;

// ---------------------------------------------------------------------------
// Table contents
// ---------------------------------------------------------------------------

/// A cell as its text and colour.
pub type CellView = (Seq<char>, Option<TextColor>);

/// The header of the language table.
pub open spec fn language_header() -> Seq<CellView> {
    seq![
        ("Language"@, Some(TextColor::Cyan)),
        ("Files"@, Some(TextColor::Cyan)),
        ("Code LOC"@, Some(TextColor::Green)),
        ("Blank"@, Some(TextColor::Yellow)),
        ("Comment"@, Some(TextColor::Blue)),
        ("Total LOC"@, Some(TextColor::White)),
        ("Share %"@, Some(TextColor::Magenta)),
    ]
}

/// The cells of one language's row: its counts and its share in percent.
pub open spec fn language_cells(l: LanguageStat, share: Seq<char>) -> Seq<CellView> {
    seq![
        (l.name@, Some(TextColor::Cyan)),
        (decimal(l.files as nat), None),
        (decimal(l.code_lines as nat), Some(TextColor::Green)),
        (decimal(l.blank_lines as nat), None),
        (decimal(l.comment_lines as nat), None),
        (decimal(l.total_lines as nat), None),
        (share + "%"@, Some(TextColor::Magenta)),
    ]
}

/// The rows of the language table, one per language.
pub open spec fn language_rows(ls: Seq<LanguageStat>, shares: Seq<String>) -> Seq<Seq<CellView>> {
    Seq::new(ls.len(), |i: int| language_cells(ls[i], shares[i]@))
}

/// What a language shows in the terminal table's column of the given name:
/// its name, its files, code, blank, comment and total lines, and its share
/// in percent, with the colours of the table.
pub open spec fn language_column_cell(l: LanguageStat, share: Seq<char>, column: Seq<char>) -> CellView {
    if column == "Language"@ {
        (l.name@, Some(TextColor::Cyan))
    } else if column == "Files"@ {
        (decimal(l.files as nat), None)
    } else if column == "Code LOC"@ {
        (decimal(l.code_lines as nat), Some(TextColor::Green))
    } else if column == "Blank"@ {
        (decimal(l.blank_lines as nat), None)
    } else if column == "Comment"@ {
        (decimal(l.comment_lines as nat), None)
    } else if column == "Total LOC"@ {
        (decimal(l.total_lines as nat), None)
    } else {
        (share + "%"@, Some(TextColor::Magenta))
    }
}

/// The terminal language table has the Markdown table's columns, and each
/// language's row shows, column by column, what the header's column name
/// says.
pub proof fn lemma_language_cells_follow_header(l: LanguageStat, share: Seq<char>)
    ensures
        language_header().map_values(|h: CellView| h.0) == language_columns(),
        language_cells(l, share) == language_header().map_values(
            |h: CellView| language_column_cell(l, share, h.0),
        ),
{
    lemma_language_column_names_differ();
    let h = language_header();
    assert(h.map_values(|c: CellView| c.0) =~= language_columns());
    let want = h.map_values(|c: CellView| language_column_cell(l, share, c.0));
    assert(want[0] == language_column_cell(l, share, "Language"@));
    assert(want[1] == language_column_cell(l, share, "Files"@));
    assert(want[2] == language_column_cell(l, share, "Code LOC"@));
    assert(want[3] == language_column_cell(l, share, "Blank"@));
    assert(want[4] == language_column_cell(l, share, "Comment"@));
    assert(want[5] == language_column_cell(l, share, "Total LOC"@));
    assert(want[6] == language_column_cell(l, share, "Share %"@));
    assert(language_cells(l, share) =~= want);
}

/// The header of the storage table.
pub open spec fn storage_header() -> Seq<CellView> {
    seq![
        ("Folder Name"@, Some(TextColor::Yellow)),
        ("Files"@, Some(TextColor::Cyan)),
        ("Size (MB)"@, Some(TextColor::Green)),
    ]
}

/// The cells of one folder's row.
pub open spec fn folder_cells(d: FolderStat, mb: Seq<char>) -> Seq<CellView> {
    seq![
        (d.relative_path@, Some(TextColor::Yellow)),
        (decimal(d.files_count as nat), None),
        (mb + " MB"@, Some(TextColor::Green)),
    ]
}

/// The rows of the storage table, one per folder.
pub open spec fn storage_rows(ds: Seq<FolderStat>, mbs: Seq<String>) -> Seq<Seq<CellView>> {
    Seq::new(ds.len(), |i: int| folder_cells(ds[i], mbs[i]@))
}

/// The header of the duplicates table.
pub open spec fn duplicate_header() -> Seq<CellView> {
    seq![
        ("Group Hash"@, Some(TextColor::Magenta)),
        ("Size/File"@, Some(TextColor::Cyan)),
        ("Copies"@, Some(TextColor::Yellow)),
        ("Duplicate Paths"@, Some(TextColor::White)),
    ]
}

/// The first `i` paths, one per line.
pub open spec fn path_lines(files: Seq<String>, i: int) -> Seq<char>
    decreases i,
{
    if i <= 0 {
        Seq::empty()
    } else if i == 1 {
        files[0]@
    } else {
        path_lines(files, i - 1) + "\n"@ + files[i - 1]@
    }
}

/// The cells of one duplicate group's row: its hash in hexadecimal, the
/// size of each copy, the number of copies and their paths.
pub open spec fn group_cells(g: DuplicateGroup, mb: Seq<char>) -> Seq<CellView> {
    seq![
        (hex(g.hash as nat), Some(TextColor::Magenta)),
        (mb + " MB"@, Some(TextColor::Cyan)),
        (decimal(g.files@.len()), Some(TextColor::Yellow)),
        (path_lines(g.files@, g.files@.len() as int), None),
    ]
}

/// How many duplicate groups the table lists.
pub open spec fn shown_groups(n: nat) -> nat {
    if n < MAX_SHOWN_GROUPS {
        n
    } else {
        MAX_SHOWN_GROUPS as nat
    }
}

/// The rows of the duplicates table: the first groups, at most ten.
pub open spec fn duplicate_rows(gs: Seq<DuplicateGroup>, mbs: Seq<String>) -> Seq<Seq<CellView>> {
    Seq::new(shown_groups(gs.len()), |i: int| group_cells(gs[i], mbs[i]@))
}

/// The header of the jumbo files table.
pub open spec fn jumbo_header() -> Seq<CellView> {
    seq![("File Path"@, Some(TextColor::Red)), ("Size (MB)"@, Some(TextColor::Red))]
}

/// The cells of one jumbo file's row.
pub open spec fn jumbo_cells(j: JumboFile, mb: Seq<char>) -> Seq<CellView> {
    seq![(j.path@, None), (mb + " MB"@, None)]
}

/// The rows of the jumbo files table, one per file.
pub open spec fn jumbo_rows(js: Seq<JumboFile>, mbs: Seq<String>) -> Seq<Seq<CellView>> {
    Seq::new(js.len(), |i: int| jumbo_cells(js[i], mbs[i]@))
}

// ---------------------------------------------------------------------------
// Building the tables
// ---------------------------------------------------------------------------

/// Appends a cell with the given text to a row.
fn push_cell(cells: &mut Vec<comfy_table::Cell>, text: &str, color: Option<TextColor>)
    ensures
        cell_views(final(cells)@) == cell_views(old(cells)@).push((text@, color)),
{
    let c = styled_cell(text, color);
    cells.push(c);
    assert(cell_views(cells@) =~= cell_views(old(cells)@).push((text@, color)));
}

/// A table with the `UTF8_FULL` borders and the given header.
fn table_with_header(header: Vec<comfy_table::Cell>) -> (t: comfy_table::Table)
    ensures
        table_header(t) == cell_views(header@),
        table_rows(t).len() == 0,
{
    let mut t = table_new();
    table_load_utf8_full(&mut t);
    table_set_header(&mut t, header);
    t
}

/// The language table: its header, then one row per language with its
/// share of code lines.
pub fn language_table(languages: &Vec<LanguageStat>, shares: &Vec<String>) -> (t: comfy_table::Table)
    requires
        shares@.len() == languages@.len(),
    ensures
        table_header(t) == language_header(),
        table_rows(t) == language_rows(languages@, shares@),
{
    let mut header: Vec<comfy_table::Cell> = Vec::new();
    push_cell(&mut header, "Language", Some(TextColor::Cyan));
    push_cell(&mut header, "Files", Some(TextColor::Cyan));
    push_cell(&mut header, "Code LOC", Some(TextColor::Green));
    push_cell(&mut header, "Blank", Some(TextColor::Yellow));
    push_cell(&mut header, "Comment", Some(TextColor::Blue));
    push_cell(&mut header, "Total LOC", Some(TextColor::White));
    push_cell(&mut header, "Share %", Some(TextColor::Magenta));
    assert(cell_views(header@) =~= language_header());
    let mut t = table_new();
    table_load_utf8_full(&mut t);
    table_arrange_dynamic(&mut t);
    table_set_header(&mut t, header);
    let mut i: usize = 0;
    while i < languages.len()
        invariant
            shares@.len() == languages@.len(),
            i <= languages@.len(),
            table_header(t) == language_header(),
            table_rows(t) =~= Seq::new(
                i as nat,
                |k: int| language_cells(languages@[k], shares@[k]@),
            ),
        decreases languages@.len() - i,
    {
        let l = &languages[i];
        let mut row: Vec<comfy_table::Cell> = Vec::new();
        push_cell(&mut row, l.name.as_str(), Some(TextColor::Cyan));
        push_cell(&mut row, decimal_string(l.files as u128).as_str(), None);
        push_cell(&mut row, decimal_string(l.code_lines as u128).as_str(), Some(TextColor::Green));
        push_cell(&mut row, decimal_string(l.blank_lines as u128).as_str(), None);
        push_cell(&mut row, decimal_string(l.comment_lines as u128).as_str(), None);
        push_cell(&mut row, decimal_string(l.total_lines as u128).as_str(), None);
        let mut share = shares[i].clone();
        push_str(&mut share, "%");
        push_cell(&mut row, share.as_str(), Some(TextColor::Magenta));
        assert(cell_views(row@) =~= language_cells(languages@[i as int], shares@[i as int]@));
        table_add_row(&mut t, row);
        i = i + 1;
    }
    t
}

/// The storage table: its header, then one row per folder with its size.
pub fn storage_table(folders: &Vec<FolderStat>, sizes_mb: &Vec<String>) -> (t: comfy_table::Table)
    requires
        sizes_mb@.len() == folders@.len(),
    ensures
        table_header(t) == storage_header(),
        table_rows(t) == storage_rows(folders@, sizes_mb@),
{
    let mut header: Vec<comfy_table::Cell> = Vec::new();
    push_cell(&mut header, "Folder Name", Some(TextColor::Yellow));
    push_cell(&mut header, "Files", Some(TextColor::Cyan));
    push_cell(&mut header, "Size (MB)", Some(TextColor::Green));
    assert(cell_views(header@) =~= storage_header());
    let mut t = table_with_header(header);
    let mut i: usize = 0;
    while i < folders.len()
        invariant
            sizes_mb@.len() == folders@.len(),
            i <= folders@.len(),
            table_header(t) == storage_header(),
            table_rows(t) =~= Seq::new(
                i as nat,
                |k: int| folder_cells(folders@[k], sizes_mb@[k]@),
            ),
        decreases folders@.len() - i,
    {
        let d = &folders[i];
        let mut row: Vec<comfy_table::Cell> = Vec::new();
        push_cell(&mut row, d.relative_path.as_str(), Some(TextColor::Yellow));
        push_cell(&mut row, decimal_string(d.files_count as u128).as_str(), None);
        let mut size = sizes_mb[i].clone();
        push_str(&mut size, " MB");
        push_cell(&mut row, size.as_str(), Some(TextColor::Green));
        assert(cell_views(row@) =~= folder_cells(folders@[i as int], sizes_mb@[i as int]@));
        table_add_row(&mut t, row);
        i = i + 1;
    }
    t
}

/// The paths of a group, one per line.
fn lines_of_paths(files: &Vec<String>) -> (r: String)
    ensures
        r@ == path_lines(files@, files@.len() as int),
{
    let mut s = String::new();
    let mut i: usize = 0;
    while i < files.len()
        invariant
            i <= files@.len(),
            s@ == path_lines(files@, i as int),
        decreases files@.len() - i,
    {
        let ghost before = s@;
        if i > 0 {
            push_str(&mut s, "\n");
        }
        push_str(&mut s, files[i].as_str());
        proof {
            if i == 0 {
                assert(before =~= Seq::<char>::empty());
                assert(s@ =~= files@[0]@);
            } else {
                assert(s@ =~= before + "\n"@ + files@[i as int]@);
            }
        }
        i = i + 1;
    }
    s
}

/// The duplicates table: its header, then a row for each of the first ten
/// groups.
pub fn duplicate_table(groups: &Vec<DuplicateGroup>, sizes_mb: &Vec<String>) -> (t: comfy_table::Table)
    requires
        sizes_mb@.len() == groups@.len(),
    ensures
        table_header(t) == duplicate_header(),
        table_rows(t) == duplicate_rows(groups@, sizes_mb@),
{
    let mut header: Vec<comfy_table::Cell> = Vec::new();
    push_cell(&mut header, "Group Hash", Some(TextColor::Magenta));
    push_cell(&mut header, "Size/File", Some(TextColor::Cyan));
    push_cell(&mut header, "Copies", Some(TextColor::Yellow));
    push_cell(&mut header, "Duplicate Paths", Some(TextColor::White));
    assert(cell_views(header@) =~= duplicate_header());
    let mut t = table_with_header(header);
    let n: usize = if groups.len() < MAX_SHOWN_GROUPS {
        groups.len()
    } else {
        MAX_SHOWN_GROUPS
    };
    let mut i: usize = 0;
    while i < n
        invariant
            sizes_mb@.len() == groups@.len(),
            n == shown_groups(groups@.len()),
            i <= n,
            table_header(t) == duplicate_header(),
            table_rows(t) =~= Seq::new(
                i as nat,
                |k: int| group_cells(groups@[k], sizes_mb@[k]@),
            ),
        decreases n - i,
    {
        let g = &groups[i];
        let mut row: Vec<comfy_table::Cell> = Vec::new();
        let mut h = String::new();
        push_hex(&mut h, g.hash);
        push_cell(&mut row, h.as_str(), Some(TextColor::Magenta));
        let mut size = sizes_mb[i].clone();
        push_str(&mut size, " MB");
        push_cell(&mut row, size.as_str(), Some(TextColor::Cyan));
        push_cell(&mut row, decimal_string(g.files.len() as u128).as_str(), Some(TextColor::Yellow));
        let paths = lines_of_paths(&g.files);
        push_cell(&mut row, paths.as_str(), None);
        assert(cell_views(row@) =~= group_cells(groups@[i as int], sizes_mb@[i as int]@));
        table_add_row(&mut t, row);
        i = i + 1;
    }
    t
}

/// The jumbo files table: its header, then one row per file with its size.
pub fn jumbo_table(jumbo_files: &Vec<JumboFile>, sizes_mb: &Vec<String>) -> (t: comfy_table::Table)
    requires
        sizes_mb@.len() == jumbo_files@.len(),
    ensures
        table_header(t) == jumbo_header(),
        table_rows(t) == jumbo_rows(jumbo_files@, sizes_mb@),
{
    let mut header: Vec<comfy_table::Cell> = Vec::new();
    push_cell(&mut header, "File Path", Some(TextColor::Red));
    push_cell(&mut header, "Size (MB)", Some(TextColor::Red));
    assert(cell_views(header@) =~= jumbo_header());
    let mut t = table_with_header(header);
    let mut i: usize = 0;
    while i < jumbo_files.len()
        invariant
            sizes_mb@.len() == jumbo_files@.len(),
            i <= jumbo_files@.len(),
            table_header(t) == jumbo_header(),
            table_rows(t) =~= Seq::new(
                i as nat,
                |k: int| jumbo_cells(jumbo_files@[k], sizes_mb@[k]@),
            ),
        decreases jumbo_files@.len() - i,
    {
        let j = &jumbo_files[i];
        let mut row: Vec<comfy_table::Cell> = Vec::new();
        push_cell(&mut row, j.path.as_str(), None);
        let mut size = sizes_mb[i].clone();
        push_str(&mut size, " MB");
        push_cell(&mut row, size.as_str(), None);
        assert(cell_views(row@) =~= jumbo_cells(jumbo_files@[i as int], sizes_mb@[i as int]@));
        table_add_row(&mut t, row);
        i = i + 1;
    }
    t
}


// ---------------------------------------------------------------------------
// The report
// ---------------------------------------------------------------------------

/// The title and the summary lines: path, files, size, scan time and lines.
pub open spec fn term_summary(stats: RepoStats, f: ReportFigures) -> Seq<char> {
    "\n⚡ FERRUM-SCAN REPOSITORY REPORT ⚡\n\n📌 Path              : "@ + stats.root_path@
        + "\n📁 Total Files        : "@ + decimal(stats.total_files as nat)
        + "\n💾 Total Size         : "@ + f.total_size_mb@ + " MB ("@ + decimal(
        stats.total_bytes as nat,
    ) + " bytes)\n⏱️  Scan Time         : "@ + decimal(stats.scan_duration_ms as nat)
        + " ms\n📝 Total Lines        : "@ + decimal(stats.total_lines as nat) + " (Code: "@
        + decimal(stats.total_code_lines as nat) + ", Blank: "@ + decimal(
        stats.total_blank_lines as nat,
    ) + ", Comments: "@ + decimal(stats.total_comment_lines as nat) + ")\n\n"@
}

/// The language section around the drawn language table.
pub open spec fn term_languages(table: Seq<char>) -> Seq<char> {
    "--- LANGUAGE BREAKDOWN ---\n"@ + table + "\n\n"@
}

/// The storage section, present where the breakdown was made, around the
/// drawn storage table.
pub open spec fn term_storage(stats: RepoStats, table: Seq<char>) -> Seq<char> {
    match stats.top_folders {
        Some(ds) => "--- TOP DIRECTORIES BY STORAGE (--storage) ---\n"@ + if ds@.len() == 0 {
            "No subdirectories found.\n\n"@
        } else {
            table + "\n\n"@
        },
        None => Seq::empty(),
    }
}

/// The duplicates section, present where the search ran: the wasted space,
/// the number of groups and the drawn duplicates table.
pub open spec fn term_duplicates(stats: RepoStats, f: ReportFigures, table: Seq<char>) -> Seq<char> {
    match stats.duplicate_groups {
        Some(gs) => "--- DUPLICATE FILES DETECTOR (--duplicates) ---\n⚠️  Total Wasted Storage Space: "@
            + f.wasted_mb@ + " MB ("@ + decimal(gs@.len()) + " duplicate groups)\n\n"@
            + if gs@.len() == 0 {
            "✅ No duplicate files found.\n\n"@
        } else {
            table + "\n\n"@
        },
        None => Seq::empty(),
    }
}

/// The line of one top contributor, the name padded to twenty characters.
pub open spec fn contributor_line(c: (String, usize)) -> Seq<char> {
    "   • "@ + pad_right(c.0@, CONTRIBUTOR_NAME_WIDTH as nat) + " : "@ + decimal(c.1 as nat)
        + " commits\n"@
}

/// The lines of the first `i` top contributors.
pub open spec fn contributor_lines(cs: Seq<(String, usize)>, i: int) -> Seq<char>
    decreases i,
{
    if i <= 0 {
        Seq::empty()
    } else {
        contributor_lines(cs, i - 1) + contributor_line(cs[i - 1])
    }
}

/// The git lines of a repository: commits, contributors, the last commit
/// date and the top contributors.
pub open spec fn git_lines(g: GitHealth) -> Seq<char> {
    "✅ Git Repository Detected\n📊 Total Commits        : "@ + decimal(g.commit_count as nat)
        + "\n👥 Total Contributors   : "@ + decimal(g.total_contributors as nat) + "\n"@
        + match g.last_commit_date {
        Some(d) => "📅 Last Commit Date     : "@ + d@ + "\n"@,
        None => Seq::empty(),
    } + if g.top_contributors@.len() > 0 {
        "\n🏆 Top Contributors:\n"@ + contributor_lines(
            g.top_contributors@,
            g.top_contributors@.len() as int,
        )
    } else {
        Seq::empty()
    } + "\n"@
}

/// The git section.
pub open spec fn term_git(stats: RepoStats) -> Seq<char> {
    "--- GIT HEALTH INSPECTOR ---\n"@ + if stats.git_health.is_git_repo {
        git_lines(stats.git_health)
    } else {
        "⚠️  Not a git repository (or .git folder not found)\n\n"@
    }
}

/// The jumbo files section, present where there are any, around the drawn
/// jumbo files table.
pub open spec fn term_jumbo(stats: RepoStats, table: Seq<char>) -> Seq<char> {
    if stats.jumbo_files@.len() > 0 {
        "--- 🚨 JUMBO FILES DETECTED (> threshold) ---\n"@ + table + "\n\n"@
    } else {
        Seq::empty()
    }
}

/// The first `i` insights, one bullet each.
pub open spec fn insight_lines(is: Seq<String>, i: int) -> Seq<char>
    decreases i,
{
    if i <= 0 {
        Seq::empty()
    } else {
        insight_lines(is, i - 1) + "• "@ + is[i - 1]@ + "\n"@
    }
}

/// The insights section.
pub open spec fn term_insights(stats: RepoStats) -> Seq<char> {
    "--- 💡 REPOSITORY INSIGHTS ---\n"@ + insight_lines(stats.insights@, stats.insights@.len() as int)
        + "\n"@
}

/// The terminal report, with the four tables drawn as the given texts:
/// summary, languages, storage, duplicates, git, jumbo files and insights,
/// in that order.
pub open spec fn terminal_text(
    stats: RepoStats,
    f: ReportFigures,
    language_text: Seq<char>,
    storage_text: Seq<char>,
    duplicate_text: Seq<char>,
    jumbo_text: Seq<char>,
) -> Seq<char> {
    term_summary(stats, f) + term_languages(language_text) + term_storage(stats, storage_text)
        + term_duplicates(stats, f, duplicate_text) + term_git(stats) + term_jumbo(
        stats,
        jumbo_text,
    ) + term_insights(stats)
}


fn push_term_summary(s: &mut String, stats: &RepoStats, figures: &ReportFigures)
    ensures
        final(s)@ == old(s)@ + term_summary(*stats, *figures),
{
    let ghost start = s@;
    push_str(s, "\n⚡ FERRUM-SCAN REPOSITORY REPORT ⚡\n\n📌 Path              : ");
    push_str(s, stats.root_path.as_str());
    push_str(s, "\n📁 Total Files        : ");
    push_decimal(s, stats.total_files as u128);
    push_str(s, "\n💾 Total Size         : ");
    push_str(s, figures.total_size_mb.as_str());
    push_str(s, " MB (");
    push_decimal(s, stats.total_bytes as u128);
    push_str(s, " bytes)\n⏱️  Scan Time         : ");
    push_decimal(s, stats.scan_duration_ms);
    push_str(s, " ms\n📝 Total Lines        : ");
    push_decimal(s, stats.total_lines as u128);
    push_str(s, " (Code: ");
    push_decimal(s, stats.total_code_lines as u128);
    push_str(s, ", Blank: ");
    push_decimal(s, stats.total_blank_lines as u128);
    push_str(s, ", Comments: ");
    push_decimal(s, stats.total_comment_lines as u128);
    push_str(s, ")\n\n");
    assert(s@ =~= start + term_summary(*stats, *figures));
}

fn push_term_storage(s: &mut String, stats: &RepoStats, table: &str)
    ensures
        final(s)@ == old(s)@ + term_storage(*stats, table@),
{
    let ghost start = s@;
    match &stats.top_folders {
        Some(folders) => {
            push_str(s, "--- TOP DIRECTORIES BY STORAGE (--storage) ---\n");
            if folders.len() == 0 {
                push_str(s, "No subdirectories found.\n\n");
            } else {
                push_str(s, table);
                push_str(s, "\n\n");
            }
        },
        None => {},
    }
    assert(s@ =~= start + term_storage(*stats, table@));
}

fn push_term_duplicates(s: &mut String, stats: &RepoStats, figures: &ReportFigures, table: &str)
    ensures
        final(s)@ == old(s)@ + term_duplicates(*stats, *figures, table@),
{
    let ghost start = s@;
    match &stats.duplicate_groups {
        Some(groups) => {
            push_str(
                s,
                "--- DUPLICATE FILES DETECTOR (--duplicates) ---\n⚠️  Total Wasted Storage Space: ",
            );
            push_str(s, figures.wasted_mb.as_str());
            push_str(s, " MB (");
            push_decimal(s, groups.len() as u128);
            push_str(s, " duplicate groups)\n\n");
            if groups.len() == 0 {
                push_str(s, "✅ No duplicate files found.\n\n");
            } else {
                push_str(s, table);
                push_str(s, "\n\n");
            }
        },
        None => {},
    }
    assert(s@ =~= start + term_duplicates(*stats, *figures, table@));
}

fn push_contributor_lines(s: &mut String, cs: &Vec<(String, usize)>)
    ensures
        final(s)@ == old(s)@ + contributor_lines(cs@, cs@.len() as int),
{
    let mut i: usize = 0;
    while i < cs.len()
        invariant
            i <= cs@.len(),
            s@ == old(s)@ + contributor_lines(cs@, i as int),
        decreases cs@.len() - i,
    {
        let ghost before = s@;
        push_str(s, "   • ");
        push_padded(s, cs[i].0.as_str(), CONTRIBUTOR_NAME_WIDTH);
        push_str(s, " : ");
        push_decimal(s, cs[i].1 as u128);
        push_str(s, " commits\n");
        proof {
            assert(s@ =~= before + contributor_line(cs@[i as int]));
        }
        i = i + 1;
    }
}

fn push_git_lines(s: &mut String, g: &GitHealth)
    ensures
        final(s)@ == old(s)@ + git_lines(*g),
{
    let ghost start = s@;
    push_str(s, "✅ Git Repository Detected\n📊 Total Commits        : ");
    push_decimal(s, g.commit_count as u128);
    push_str(s, "\n👥 Total Contributors   : ");
    push_decimal(s, g.total_contributors as u128);
    push_str(s, "\n");
    let ghost c1 = s@;
    match &g.last_commit_date {
        Some(d) => {
            push_str(s, "📅 Last Commit Date     : ");
            push_str(s, d.as_str());
            push_str(s, "\n");
        },
        None => {},
    }
    let ghost c2 = s@;
    assert(c2 =~= c1 + match g.last_commit_date {
        Some(d) => "📅 Last Commit Date     : "@ + d@ + "\n"@,
        None => Seq::empty(),
    });
    if g.top_contributors.len() > 0 {
        push_str(s, "\n🏆 Top Contributors:\n");
        push_contributor_lines(s, &g.top_contributors);
    }
    let ghost c3 = s@;
    assert(c3 =~= c2 + if g.top_contributors@.len() > 0 {
        "\n🏆 Top Contributors:\n"@ + contributor_lines(
            g.top_contributors@,
            g.top_contributors@.len() as int,
        )
    } else {
        Seq::empty()
    });
    push_str(s, "\n");
    assert(s@ =~= start + git_lines(*g));
}

fn push_term_git(s: &mut String, stats: &RepoStats)
    ensures
        final(s)@ == old(s)@ + term_git(*stats),
{
    let ghost start = s@;
    push_str(s, "--- GIT HEALTH INSPECTOR ---\n");
    if stats.git_health.is_git_repo {
        push_git_lines(s, &stats.git_health);
    } else {
        push_str(s, "⚠️  Not a git repository (or .git folder not found)\n\n");
    }
    assert(s@ =~= start + term_git(*stats));
}

fn push_term_jumbo(s: &mut String, stats: &RepoStats, table: &str)
    ensures
        final(s)@ == old(s)@ + term_jumbo(*stats, table@),
{
    let ghost start = s@;
    if stats.jumbo_files.len() > 0 {
        push_str(s, "--- 🚨 JUMBO FILES DETECTED (> threshold) ---\n");
        push_str(s, table);
        push_str(s, "\n\n");
    }
    assert(s@ =~= start + term_jumbo(*stats, table@));
}

fn push_term_insights(s: &mut String, stats: &RepoStats)
    ensures
        final(s)@ == old(s)@ + term_insights(*stats),
{
    let ghost start = s@;
    push_str(s, "--- 💡 REPOSITORY INSIGHTS ---\n");
    let mut i: usize = 0;
    while i < stats.insights.len()
        invariant
            i <= stats.insights@.len(),
            s@ == start + "--- 💡 REPOSITORY INSIGHTS ---\n"@ + insight_lines(
                stats.insights@,
                i as int,
            ),
        decreases stats.insights@.len() - i,
    {
        let ghost before = s@;
        push_str(s, "• ");
        push_str(s, stats.insights[i].as_str());
        push_str(s, "\n");
        proof {
            assert(s@ =~= before + "• "@ + stats.insights@[i as int]@ + "\n"@);
        }
        i = i + 1;
    }
    push_str(s, "\n");
    assert(s@ =~= start + term_insights(*stats));
}

// ---------------------------------------------------------------------------
// Drawn tables
// ---------------------------------------------------------------------------

/// `t` has the given header and rows, and `text` is a drawing of it.
pub open spec fn drawing_of(
    t: comfy_table::Table,
    header: Seq<CellView>,
    rows: Seq<Seq<CellView>>,
    text: Seq<char>,
) -> bool {
    &&& table_header(t) == header
    &&& table_rows(t) == rows
    &&& drawn_from(t, text)
}

/// `text` is a drawing of a table with the given header and rows.
pub open spec fn draws(header: Seq<CellView>, rows: Seq<Seq<CellView>>, text: Seq<char>) -> bool {
    exists|t: comfy_table::Table| #[trigger] drawing_of(t, header, rows, text)
}

/// `text` draws the language table of the scan.
pub open spec fn shows_languages(stats: RepoStats, f: ReportFigures, text: Seq<char>) -> bool {
    draws(language_header(), language_rows(stats.languages@, f.language_shares@), text)
}

/// Where the storage section shows a table, `text` draws the storage table
/// of the scan.
pub open spec fn shows_storage(stats: RepoStats, f: ReportFigures, text: Seq<char>) -> bool {
    match stats.top_folders {
        Some(ds) => ds@.len() > 0 ==> draws(storage_header(), storage_rows(ds@, f.folder_sizes_mb@), text),
        None => true,
    }
}

/// Where the duplicates section shows a table, `text` draws the duplicates
/// table of the scan (its first ten groups).
pub open spec fn shows_duplicates(stats: RepoStats, f: ReportFigures, text: Seq<char>) -> bool {
    match stats.duplicate_groups {
        Some(gs) => gs@.len() > 0 ==> draws(
            duplicate_header(),
            duplicate_rows(gs@, f.group_sizes_mb@),
            text,
        ),
        None => true,
    }
}

/// Where there are jumbo files, `text` draws the jumbo files table of the
/// scan.
pub open spec fn shows_jumbo(stats: RepoStats, f: ReportFigures, text: Seq<char>) -> bool {
    stats.jumbo_files@.len() > 0 ==> draws(
        jumbo_header(),
        jumbo_rows(stats.jumbo_files@, f.jumbo_sizes_mb@),
        text,
    )
}

/// The terminal report with the four tables already drawn
/// (`terminal_text`); a table's text is used only where its section shows
/// the table.
pub fn terminal_report_with(
    stats: &RepoStats,
    figures: &ReportFigures,
    language_text: &str,
    storage_text: &str,
    duplicate_text: &str,
    jumbo_text: &str,
) -> (r: String)
    ensures
        r@ == terminal_text(
            *stats,
            *figures,
            language_text@,
            storage_text@,
            duplicate_text@,
            jumbo_text@,
        ),
{
    let mut s = String::new();
    push_term_summary(&mut s, stats, figures);
    push_str(&mut s, "--- LANGUAGE BREAKDOWN ---\n");
    push_str(&mut s, language_text);
    push_str(&mut s, "\n\n");
    push_term_storage(&mut s, stats, storage_text);
    push_term_duplicates(&mut s, stats, figures, duplicate_text);
    push_term_git(&mut s, stats);
    push_term_jumbo(&mut s, stats, jumbo_text);
    push_term_insights(&mut s, stats);
    assert(s@ =~= terminal_text(
        *stats,
        *figures,
        language_text@,
        storage_text@,
        duplicate_text@,
        jumbo_text@,
    ));
    s
}

/// The terminal report of a scan: the tables are built from the statistics
/// and the figures (`language_table`, `storage_table`, `duplicate_table`,
/// `jumbo_table`), drawn by `comfy_table`, and set into the report as
/// `terminal_report_with` does. A table that its section does not show is
/// not built.
pub fn terminal_report(stats: &RepoStats, figures: &ReportFigures) -> (r: String)
    requires
        figures_fit(*stats, *figures),
    ensures
        exists|a: Seq<char>, b: Seq<char>, c: Seq<char>, d: Seq<char>|
            {
                &&& r@ == #[trigger] terminal_text(*stats, *figures, a, b, c, d)
                &&& shows_languages(*stats, *figures, a)
                &&& shows_storage(*stats, *figures, b)
                &&& shows_duplicates(*stats, *figures, c)
                &&& shows_jumbo(*stats, *figures, d)
            },
{
    let languages = language_table(&stats.languages, &figures.language_shares);
    let language_text = table_render(&languages);
    proof {
        assert(drawing_of(
            languages,
            language_header(),
            language_rows(stats.languages@, figures.language_shares@),
            language_text@,
        ));
    }
    let storage_text = match &stats.top_folders {
        Some(folders) => {
            if folders.len() > 0 {
                let t = storage_table(folders, &figures.folder_sizes_mb);
                let x = table_render(&t);
                proof {
                    assert(drawing_of(
                        t,
                        storage_header(),
                        storage_rows(folders@, figures.folder_sizes_mb@),
                        x@,
                    ));
                }
                x
            } else {
                String::new()
            }
        },
        None => String::new(),
    };
    let duplicate_text = match &stats.duplicate_groups {
        Some(groups) => {
            if groups.len() > 0 {
                let t = duplicate_table(groups, &figures.group_sizes_mb);
                let x = table_render(&t);
                proof {
                    assert(drawing_of(
                        t,
                        duplicate_header(),
                        duplicate_rows(groups@, figures.group_sizes_mb@),
                        x@,
                    ));
                }
                x
            } else {
                String::new()
            }
        },
        None => String::new(),
    };
    let jumbo_text = if stats.jumbo_files.len() > 0 {
        let t = jumbo_table(&stats.jumbo_files, &figures.jumbo_sizes_mb);
        let x = table_render(&t);
        proof {
            assert(drawing_of(
                t,
                jumbo_header(),
                jumbo_rows(stats.jumbo_files@, figures.jumbo_sizes_mb@),
                x@,
            ));
        }
        x
    } else {
        String::new()
    };
    proof {
        assert(shows_languages(*stats, *figures, language_text@));
        assert(shows_storage(*stats, *figures, storage_text@));
        assert(shows_duplicates(*stats, *figures, duplicate_text@));
        assert(shows_jumbo(*stats, *figures, jumbo_text@));
    }
    terminal_report_with(
        stats,
        figures,
        language_text.as_str(),
        storage_text.as_str(),
        duplicate_text.as_str(),
        jumbo_text.as_str(),
    )
}

} // verus!
