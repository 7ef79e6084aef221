//! Repository insights: short findings on the dominant language, the
//! documentation ratio, wasted space, jumbo files and git, and an overall
//! health rating.
//!
//! Percentages and megabyte figures are fractional; they reach this module
//! already written out (`InsightFigures`). The documentation level is
//! decided here, on the line counts.

use vstd::prelude::*;
use crate::scan::RepoStats;
use crate::text::{decimal, push_str, push_decimal, strs};

verus! {

/// How well commented the code is: below 5% of lines are comments, from 15%
/// on, or in between (a scan without lines counts as 0%).
#[derive(Debug, Clone, Copy, PartialEq, Eq, Structural)]
pub enum DocumentationLevel {
    Low,
    Moderate,
    Strong,
}

/// The fractional figures the insights quote, already written out.
pub struct InsightFigures {
    /// The dominant language's share of code lines in percent (one decimal).
    pub dominant_share: String,
    /// Comment lines in percent of all lines (one decimal).
    pub comment_percentage: String,
    /// The wasted bytes in megabytes (two decimals).
    pub wasted_mb: String,
    /// The size of all jumbo files in megabytes (two decimals).
    pub jumbo_total_mb: String,
}

/// Wasted bytes above which duplicates are reported.
pub const BLOAT_REPORT_BYTES: u64 = 1_000_000;

/// Wasted bytes above which the rating drops.
pub const BLOAT_PENALTY_BYTES: u64 = 5_000_000;

// ---------------------------------------------------------------------------
// Documentation level
// ---------------------------------------------------------------------------

/// The documentation level of `comments` comment lines among `lines`
/// lines: low below 5%, strong from 15%, moderate in between; no lines at
/// all is 0%, so low.
pub open spec fn documentation_level(comments: nat, lines: nat) -> DocumentationLevel {
    if lines == 0 || 100 * comments < 5 * lines {
        DocumentationLevel::Low
    } else if 100 * comments >= 15 * lines {
        DocumentationLevel::Strong
    } else {
        DocumentationLevel::Moderate
    }
}

/// The documentation level of a scan, by its comment and total lines.
pub open spec fn scan_documentation(stats: RepoStats) -> DocumentationLevel {
    documentation_level(stats.total_comment_lines as nat, stats.total_lines as nat)
}

/// The documentation level of `comment_lines` comment lines among
/// `total_lines` lines (`documentation_level`).
pub fn classify_documentation(comment_lines: usize, total_lines: usize) -> (d: DocumentationLevel)
    ensures
        d == documentation_level(comment_lines as nat, total_lines as nat),
{
    let c = comment_lines as u128;
    let t = total_lines as u128;
    if total_lines == 0 || c * 100 < t * 5 {
        DocumentationLevel::Low
    } else if c * 100 >= t * 15 {
        DocumentationLevel::Strong
    } else {
        DocumentationLevel::Moderate
    }
}

// ---------------------------------------------------------------------------
// Health rating
// ---------------------------------------------------------------------------

/// Health points: 100, less 15 for no git repository, 10 for low
/// documentation, 15 for jumbo files and 15 for more than 5,000,000 wasted
/// bytes.
pub open spec fn health_points(
    is_git_repo: bool,
    low_documentation: bool,
    has_jumbo_files: bool,
    wasted_bytes: u64,
) -> int {
    100 - (if is_git_repo {
        0int
    } else {
        15
    }) - (if low_documentation {
        10int
    } else {
        0
    }) - (if has_jumbo_files {
        15int
    } else {
        0
    }) - (if wasted_bytes > BLOAT_PENALTY_BYTES {
        15int
    } else {
        0
    })
}

/// The rating for a number of health points.
pub open spec fn grade_for(points: int) -> Seq<char> {
    if points >= 90 {
        "A+ (Optimal & Clean)"@
    } else if points >= 80 {
        "A (Good Condition)"@
    } else if points >= 70 {
        "B (Needs Minor Cleanup)"@
    } else if points >= 60 {
        "C (Requires Optimization)"@
    } else {
        "D (Bloated / Unmaintained)"@
    }
}

/// The rank of the rating for a number of health points, 4 for the best.
pub open spec fn grade_rank(points: int) -> int {
    if points >= 90 {
        4
    } else if points >= 80 {
        3
    } else if points >= 70 {
        2
    } else if points >= 60 {
        1
    } else {
        0
    }
}

/// The rating of the scanned repository.
pub open spec fn health_grade(stats: RepoStats) -> Seq<char> {
    grade_for(
        health_points(
            stats.git_health.is_git_repo,
            scan_documentation(stats) == DocumentationLevel::Low,
            stats.jumbo_files@.len() > 0,
            stats.total_wasted_bytes,
        ),
    )
}

/// The overall health rating of a repository: 100 points, less 15 when it
/// is no git repository, 10 for low documentation (below 5% comment lines),
/// 15 when it has jumbo files and 15 when duplicates waste more than
/// 5,000,000 bytes; A+ from 90 points, A from 80, B from 70, C from 60, D
/// below.
pub fn calculate_health_grade(stats: &RepoStats) -> (r: String)
    ensures
        r@ == health_grade(*stats),
{
    let mut points: i32 = 100;
    if !stats.git_health.is_git_repo {
        points = points - 15;
    }
    let level = classify_documentation(stats.total_comment_lines, stats.total_lines);
    if matches!(level, DocumentationLevel::Low) {
        points = points - 10;
    }
    if stats.jumbo_files.len() > 0 {
        points = points - 15;
    }
    if stats.total_wasted_bytes > BLOAT_PENALTY_BYTES {
        points = points - 15;
    }
    let grade = if points >= 90 {
        "A+ (Optimal & Clean)"
    } else if points >= 80 {
        "A (Good Condition)"
    } else if points >= 70 {
        "B (Needs Minor Cleanup)"
    } else if points >= 60 {
        "C (Requires Optimization)"
    } else {
        "D (Bloated / Unmaintained)"
    };
    grade.to_owned()
}

/// The rating never improves with more problems: a repository that has
/// every problem another one has (no git, low documentation, jumbo files,
/// more than 5,000,000 wasted bytes) rates no better.
pub proof fn lemma_grade_monotone(
    git_a: bool,
    low_doc_a: bool,
    jumbo_a: bool,
    wasted_a: u64,
    git_b: bool,
    low_doc_b: bool,
    jumbo_b: bool,
    wasted_b: u64,
)
    requires
        !git_a ==> !git_b,
        low_doc_a ==> low_doc_b,
        jumbo_a ==> jumbo_b,
        wasted_a > BLOAT_PENALTY_BYTES ==> wasted_b > BLOAT_PENALTY_BYTES,
    ensures
        health_points(git_b, low_doc_b, jumbo_b, wasted_b) <= health_points(
            git_a,
            low_doc_a,
            jumbo_a,
            wasted_a,
        ),
        grade_rank(health_points(git_b, low_doc_b, jumbo_b, wasted_b)) <= grade_rank(
            health_points(git_a, low_doc_a, jumbo_a, wasted_a),
        ),
{
}

// ---------------------------------------------------------------------------
// Insights
// ---------------------------------------------------------------------------

/// The insight on the dominant language.
pub open spec fn dominant_insight(name: Seq<char>, share: Seq<char>) -> Seq<char> {
    "Dominant Language: "@ + name + " ("@ + share + "% of code LOC)."@
}

/// The insight on the documentation ratio.
pub open spec fn documentation_insight(level: DocumentationLevel, pct: Seq<char>) -> Seq<char> {
    match level {
        DocumentationLevel::Low => "Low documentation ratio ("@ + pct
            + "% comments). Consider adding doc comments."@,
        DocumentationLevel::Strong => "Strong documentation ratio ("@ + pct + "% comments)."@,
        DocumentationLevel::Moderate => "Moderate documentation ratio ("@ + pct + "% comments)."@,
    }
}

/// The insight on wasted space.
pub open spec fn bloat_insight(wasted_mb: Seq<char>) -> Seq<char> {
    "Duplicate bloat detected: "@ + wasted_mb + " MB of wasted storage space can be reclaimed."@
}

/// The insight on jumbo files.
pub open spec fn jumbo_insight(count: nat, total_mb: Seq<char>) -> Seq<char> {
    "Jumbo files alert: "@ + decimal(count) + " file(s) exceed size threshold (total "@ + total_mb
        + " MB)."@
}

/// The insight on git.
pub open spec fn git_insight(stats: RepoStats) -> Seq<char> {
    let g = stats.git_health;
    if g.is_git_repo {
        match g.last_commit_date {
            Some(date) => "Git Repository active with "@ + decimal(g.commit_count as nat)
                + " commits across "@ + decimal(g.total_contributors as nat)
                + " contributor(s) (Last commit: "@ + date@ + ")."@,
            None => "Git Repository tracked ("@ + decimal(g.commit_count as nat) + " commits, "@
                + decimal(g.total_contributors as nat) + " contributor(s))."@,
        }
    } else {
        "Not a Git repository. Initialize git to track repository history."@
    }
}

/// The insight with the overall rating.
pub open spec fn rating_insight(grade: Seq<char>) -> Seq<char> {
    "Overall Repository Health Rating: "@ + grade
}

/// The insights on a repository, in order: the dominant language (when
/// there is one), the documentation ratio, wasted space (above 1,000,000
/// bytes), jumbo files (when there are any), git, and the rating.
pub open spec fn insights_for(stats: RepoStats, f: InsightFigures) -> Seq<Seq<char>> {
    let first = if stats.languages@.len() > 0 {
        seq![dominant_insight(stats.languages@[0].name@, f.dominant_share@)]
    } else {
        Seq::empty()
    };
    let bloat = if stats.total_wasted_bytes > BLOAT_REPORT_BYTES {
        seq![bloat_insight(f.wasted_mb@)]
    } else {
        Seq::empty()
    };
    let jumbo = if stats.jumbo_files@.len() > 0 {
        seq![jumbo_insight(stats.jumbo_files@.len(), f.jumbo_total_mb@)]
    } else {
        Seq::empty()
    };
    first + seq![documentation_insight(scan_documentation(stats), f.comment_percentage@)] + bloat
        + jumbo + seq![git_insight(stats), rating_insight(health_grade(stats))]
}

/// The insights on a repository (`insights_for`).
pub fn generate_insights(stats: &RepoStats, figures: &InsightFigures) -> (r: Vec<String>)
    ensures
        strs(r@) == insights_for(*stats, *figures),
{
    let mut out: Vec<String> = Vec::new();
    let ghost mut expected: Seq<Seq<char>> = Seq::empty();
    if stats.languages.len() > 0 {
        let mut s = String::new();
        push_str(&mut s, "Dominant Language: ");
        push_str(&mut s, stats.languages[0].name.as_str());
        push_str(&mut s, " (");
        push_str(&mut s, figures.dominant_share.as_str());
        push_str(&mut s, "% of code LOC).");
        out.push(s);
        proof {
            expected = seq![dominant_insight(stats.languages@[0].name@, figures.dominant_share@)];
        }
    }
    assert(strs(out@) == expected);
    let mut d = String::new();
    let level = classify_documentation(stats.total_comment_lines, stats.total_lines);
    match level {
        DocumentationLevel::Low => {
            push_str(&mut d, "Low documentation ratio (");
            push_str(&mut d, figures.comment_percentage.as_str());
            push_str(&mut d, "% comments). Consider adding doc comments.");
        },
        DocumentationLevel::Strong => {
            push_str(&mut d, "Strong documentation ratio (");
            push_str(&mut d, figures.comment_percentage.as_str());
            push_str(&mut d, "% comments).");
        },
        DocumentationLevel::Moderate => {
            push_str(&mut d, "Moderate documentation ratio (");
            push_str(&mut d, figures.comment_percentage.as_str());
            push_str(&mut d, "% comments).");
        },
    }
    let ghost before = out@;
    out.push(d);
    proof {
        assert(strs(out@) == strs(before).push(d@));
        expected = expected.push(documentation_insight(level, figures.comment_percentage@));
    }
    if stats.total_wasted_bytes > BLOAT_REPORT_BYTES {
        let mut b = String::new();
        push_str(&mut b, "Duplicate bloat detected: ");
        push_str(&mut b, figures.wasted_mb.as_str());
        push_str(&mut b, " MB of wasted storage space can be reclaimed.");
        let ghost before = out@;
        out.push(b);
        proof {
            assert(strs(out@) == strs(before).push(b@));
            expected = expected.push(bloat_insight(figures.wasted_mb@));
        }
    }
    if stats.jumbo_files.len() > 0 {
        let mut j = String::new();
        push_str(&mut j, "Jumbo files alert: ");
        push_decimal(&mut j, stats.jumbo_files.len() as u128);
        push_str(&mut j, " file(s) exceed size threshold (total ");
        push_str(&mut j, figures.jumbo_total_mb.as_str());
        push_str(&mut j, " MB).");
        let ghost before = out@;
        out.push(j);
        proof {
            assert(strs(out@) == strs(before).push(j@));
            expected = expected.push(jumbo_insight(stats.jumbo_files@.len(), figures.jumbo_total_mb@));
        }
    }
    let g = git_insight_text(stats);
    let ghost before = out@;
    out.push(g);
    let grade = calculate_health_grade(stats);
    let mut rating = String::new();
    push_str(&mut rating, "Overall Repository Health Rating: ");
    push_str(&mut rating, grade.as_str());
    let ghost before2 = out@;
    out.push(rating);
    proof {
        assert(strs(before2) == strs(before).push(g@));
        assert(strs(out@) == strs(before2).push(rating@));
        expected = expected.push(git_insight(*stats)).push(rating_insight(health_grade(*stats)));
        let f = *figures;
        let st = *stats;
        let first = if st.languages@.len() > 0 {
            seq![dominant_insight(st.languages@[0].name@, f.dominant_share@)]
        } else {
            Seq::empty()
        };
        let bloat = if st.total_wasted_bytes > BLOAT_REPORT_BYTES {
            seq![bloat_insight(f.wasted_mb@)]
        } else {
            Seq::empty()
        };
        let jumbo = if st.jumbo_files@.len() > 0 {
            seq![jumbo_insight(st.jumbo_files@.len(), f.jumbo_total_mb@)]
        } else {
            Seq::empty()
        };
        assert(expected =~= first + seq![documentation_insight(scan_documentation(st), f.comment_percentage@)]
            + bloat + jumbo + seq![git_insight(st), rating_insight(health_grade(st))]);
    }
    out
}

/// The insight on git (`git_insight`).
fn git_insight_text(stats: &RepoStats) -> (r: String)
    ensures
        r@ == git_insight(*stats),
{
    let g = &stats.git_health;
    let mut s = String::new();
    if g.is_git_repo {
        match &g.last_commit_date {
            Some(date) => {
                push_str(&mut s, "Git Repository active with ");
                push_decimal(&mut s, g.commit_count as u128);
                push_str(&mut s, " commits across ");
                push_decimal(&mut s, g.total_contributors as u128);
                push_str(&mut s, " contributor(s) (Last commit: ");
                push_str(&mut s, date.as_str());
                push_str(&mut s, ").");
            },
            None => {
                push_str(&mut s, "Git Repository tracked (");
                push_decimal(&mut s, g.commit_count as u128);
                push_str(&mut s, " commits, ");
                push_decimal(&mut s, g.total_contributors as u128);
                push_str(&mut s, " contributor(s)).");
            },
        }
    } else {
        push_str(&mut s, "Not a Git repository. Initialize git to track repository history.");
    }
    s
}

} // verus!
