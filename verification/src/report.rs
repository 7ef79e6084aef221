//! Report formats, the plain-text report and the answer that confirms an
//! uninstall.

use vstd::prelude::*;
use crate::scan::RepoStats;
use crate::text::{decimal, push_str, push_decimal, trim, lowercase, has_prefix, trim_str,
    lowercase_chars};

verus! {

/// The formats a report can be written in.
#[derive(Debug, Clone, Copy, PartialEq, Eq, Structural)]
pub enum OutputFormat {
    Text,
    Md,
    Json,
}

/// The fractional figures the reports quote, already written out: sizes in
/// megabytes with two decimals and shares in percent with one decimal, one
/// per row where a table has one per row.
pub struct ReportFigures {
    /// The size of all files.
    pub total_size_mb: String,
    /// Each language's share of code lines, in the order of the languages.
    pub language_shares: Vec<String>,
    /// Each listed folder's size, in order.
    pub folder_sizes_mb: Vec<String>,
    /// The wasted bytes.
    pub wasted_mb: String,
    /// Each duplicate group's file size, in order.
    pub group_sizes_mb: Vec<String>,
    /// Each jumbo file's size, in order.
    pub jumbo_sizes_mb: Vec<String>,
}

/// The figures fit the statistics: one per language, folder, duplicate
/// group and jumbo file.
pub open spec fn figures_fit(stats: RepoStats, f: ReportFigures) -> bool {
    &&& f.language_shares@.len() == stats.languages@.len()
    &&& f.jumbo_sizes_mb@.len() == stats.jumbo_files@.len()
    &&& match stats.top_folders {
        Some(folders) => f.folder_sizes_mb@.len() == folders@.len(),
        None => true,
    }
    &&& match stats.duplicate_groups {
        Some(groups) => f.group_sizes_mb@.len() == groups@.len(),
        None => true,
    }
}

/// The file a report is written to when no path is given.
pub open spec fn default_name(format: OutputFormat) -> Seq<char> {
    match format {
        OutputFormat::Md => "SCAN_REPORT.md"@,
        OutputFormat::Json => "scan_report.json"@,
        OutputFormat::Text => "scan_report.txt"@,
    }
}

/// The file a report in `format` is written to when no path is given.
pub fn default_report_name(format: OutputFormat) -> (r: String)
    ensures
        r@ == default_name(format),
{
    let name = match format {
        OutputFormat::Md => "SCAN_REPORT.md",
        OutputFormat::Json => "scan_report.json",
        OutputFormat::Text => "scan_report.txt",
    };
    name.to_owned()
}

/// A scan without a subcommand exports its report when an output path is
/// given or a format other than plain text is asked for.
pub fn wants_export(format: OutputFormat, output_given: bool) -> (r: bool)
    ensures
        r == (output_given || format != OutputFormat::Text),
{
    output_given || !matches!(format, OutputFormat::Text)
}

/// The plain-text report: the target, the number of files, the lines and
/// the scan time.
pub open spec fn text_report(stats: RepoStats) -> Seq<char> {
    "Ferrum-Scan Report\nTarget: "@ + stats.root_path@ + "\nTotal Files: "@ + decimal(
        stats.total_files as nat,
    ) + "\nTotal LOC: "@ + decimal(stats.total_lines as nat) + "\nScan Time: "@ + decimal(
        stats.scan_duration_ms as nat,
    ) + " ms\n"@
}

/// The plain-text report of a scan (`text_report`).
pub fn generate_text(stats: &RepoStats) -> (r: String)
    ensures
        r@ == text_report(*stats),
{
    let mut s = String::new();
    push_str(&mut s, "Ferrum-Scan Report\nTarget: ");
    push_str(&mut s, stats.root_path.as_str());
    push_str(&mut s, "\nTotal Files: ");
    push_decimal(&mut s, stats.total_files as u128);
    push_str(&mut s, "\nTotal LOC: ");
    push_decimal(&mut s, stats.total_lines as u128);
    push_str(&mut s, "\nScan Time: ");
    push_decimal(&mut s, stats.scan_duration_ms);
    push_str(&mut s, " ms\n");
    s
}

/// An answer confirms when, trimmed and in lower case, it starts with `y`.
pub open spec fn confirms(answer: Seq<char>) -> bool {
    has_prefix(lowercase(trim(answer)), seq!['y'])
}

/// Whether the answer to "Are you sure?" confirms the uninstall.
pub fn confirms_uninstall(answer: &str) -> (r: bool)
    ensures
        r == confirms(answer@),
{
    let t = trim_str(answer);
    let l = lowercase_chars(t.as_slice());
    let r = l.len() > 0 && l[0] == 'y';
    proof {
        if l@.len() > 0 {
            assert(l@.take(1) =~= seq![l@[0]]);
            if l@[0] != 'y' {
                assert(l@.take(1)[0] != seq!['y'][0]);
            }
        }
        if r {
            assert(l@.take(1) == seq!['y']);
        }
    }
    r
}

} // verus!
