use ferrum_scan::git::GitHealth;
use ferrum_scan::insights::{
    calculate_health_grade, classify_documentation, generate_insights, DocumentationLevel, InsightFigures,
};
use ferrum_scan::metrics::SingleFileMetrics;
use ferrum_scan::report::{confirms_uninstall, default_report_name, generate_text, wants_export, OutputFormat};
use ferrum_scan::scan::{summarize_scan, JumboFile, RepoStats};

fn metrics(lang: &str, bytes: u64, code: usize, blank: usize, comment: usize) -> SingleFileMetrics {
    SingleFileMetrics {
        language: lang.to_string(),
        bytes,
        code_lines: code,
        blank_lines: blank,
        comment_lines: comment,
    }
}

fn sample_results() -> Vec<(String, SingleFileMetrics)> {
    vec![
        ("a.py".to_string(), metrics("Python", 100, 10, 2, 3)),
        ("b.rs".to_string(), metrics("Rust", 7_000_000, 50, 5, 5)),
        ("c.py".to_string(), metrics("Python", 50, 45, 0, 1)),
        ("d.md".to_string(), metrics("Markdown", 10, 0, 1, 0)),
    ]
}

fn empty_stats() -> RepoStats {
    summarize_scan(".", &Vec::new(), 5 * 1024 * 1024, GitHealth::default(), 0)
}

#[test]
fn summary_totals_and_languages() {
    let s = summarize_scan("/repo", &sample_results(), 5 * 1024 * 1024, GitHealth::default(), 12);
    assert_eq!(s.root_path, "/repo");
    assert_eq!(s.total_files, 4);
    assert_eq!(s.total_bytes, 7_000_160);
    assert_eq!(s.total_code_lines, 105);
    assert_eq!(s.total_blank_lines, 8);
    assert_eq!(s.total_comment_lines, 9);
    assert_eq!(s.total_lines, 122);
    assert_eq!(s.scan_duration_ms, 12);
    let names: Vec<&str> = s.languages.iter().map(|l| l.name.as_str()).collect();
    assert_eq!(names, vec!["Python", "Rust", "Markdown"]);
    let py = &s.languages[0];
    assert_eq!((py.files, py.code_lines, py.blank_lines, py.comment_lines, py.total_lines, py.bytes), (2, 55, 2, 4, 61, 150));
    assert_eq!(s.languages.iter().map(|l| l.files).sum::<usize>(), s.total_files);
    assert_eq!(s.jumbo_files.len(), 1);
    assert_eq!(s.jumbo_files[0].path, "b.rs");
    assert_eq!(s.jumbo_files[0].bytes, 7_000_000);
    assert!(s.top_folders.is_none() && s.duplicate_groups.is_none());
    assert_eq!(s.total_wasted_bytes, 0);
}

#[test]
fn jumbo_threshold_is_exclusive() {
    let s = summarize_scan(".", &sample_results(), 100, GitHealth::default(), 0);
    let paths: Vec<&str> = s.jumbo_files.iter().map(|j| j.path.as_str()).collect();
    assert_eq!(paths, vec!["b.rs"]);
    let s = summarize_scan(".", &sample_results(), 99, GitHealth::default(), 0);
    let paths: Vec<&str> = s.jumbo_files.iter().map(|j| j.path.as_str()).collect();
    assert_eq!(paths, vec!["a.py", "b.rs"]);
}

#[test]
fn health_grades() {
    let mut s = empty_stats();
    // No lines at all: 0% comments, so low documentation.
    assert_eq!(calculate_health_grade(&s), "B (Needs Minor Cleanup)");
    s.total_lines = 100;
    s.total_comment_lines = 5;
    assert_eq!(calculate_health_grade(&s), "A (Good Condition)");
    s.git_health.is_git_repo = true;
    assert_eq!(calculate_health_grade(&s), "A+ (Optimal & Clean)");
    s.total_comment_lines = 4;
    assert_eq!(calculate_health_grade(&s), "A+ (Optimal & Clean)");
    s.jumbo_files.push(JumboFile { path: "big".to_string(), bytes: 1 });
    assert_eq!(calculate_health_grade(&s), "B (Needs Minor Cleanup)");
    s.total_wasted_bytes = 5_000_001;
    assert_eq!(calculate_health_grade(&s), "C (Requires Optimization)");
    s.git_health.is_git_repo = false;
    assert_eq!(calculate_health_grade(&s), "D (Bloated / Unmaintained)");
    s.total_wasted_bytes = 5_000_000;
    assert_eq!(calculate_health_grade(&s), "C (Requires Optimization)");
}

#[test]
fn documentation_levels() {
    assert_eq!(classify_documentation(0, 0), DocumentationLevel::Low);
    assert_eq!(classify_documentation(4, 100), DocumentationLevel::Low);
    assert_eq!(classify_documentation(1, 20), DocumentationLevel::Moderate);
    assert_eq!(classify_documentation(14, 100), DocumentationLevel::Moderate);
    assert_eq!(classify_documentation(3, 20), DocumentationLevel::Strong);
    assert_eq!(classify_documentation(100, 100), DocumentationLevel::Strong);
    assert_eq!(classify_documentation(usize::MAX, usize::MAX), DocumentationLevel::Strong);
}

fn figures() -> InsightFigures {
    InsightFigures {
        dominant_share: "47.6".to_string(),
        comment_percentage: "7.4".to_string(),
        wasted_mb: "1.50".to_string(),
        jumbo_total_mb: "6.68".to_string(),
    }
}

#[test]
fn insights_for_a_tracked_repository() {
    let mut git = GitHealth::default();
    git.is_git_repo = true;
    git.commit_count = 12;
    git.total_contributors = 3;
    git.last_commit_date = Some("2024-02-03".to_string());
    let mut s = summarize_scan(".", &sample_results(), 5 * 1024 * 1024, git, 0);
    s.total_wasted_bytes = 1_500_000;
    let got = generate_insights(&s, &figures());
    assert_eq!(
        got,
        vec![
            "Dominant Language: Python (47.6% of code LOC).",
            "Moderate documentation ratio (7.4% comments).",
            "Duplicate bloat detected: 1.50 MB of wasted storage space can be reclaimed.",
            "Jumbo files alert: 1 file(s) exceed size threshold (total 6.68 MB).",
            "Git Repository active with 12 commits across 3 contributor(s) (Last commit: 2024-02-03).",
            "Overall Repository Health Rating: A (Good Condition)",
        ]
    );
}

#[test]
fn insights_for_an_empty_directory() {
    let s = empty_stats();
    let got = generate_insights(&s, &figures());
    assert_eq!(
        got,
        vec![
            "Low documentation ratio (7.4% comments). Consider adding doc comments.",
            "Not a Git repository. Initialize git to track repository history.",
            "Overall Repository Health Rating: B (Needs Minor Cleanup)",
        ]
    );
    let mut git = GitHealth::default();
    git.is_git_repo = true;
    git.commit_count = 1;
    git.total_contributors = 1;
    let mut s = summarize_scan(".", &Vec::new(), 1, git, 0);
    s.total_lines = 20;
    s.total_comment_lines = 3;
    let got = generate_insights(&s, &figures());
    assert_eq!(got[0], "Strong documentation ratio (7.4% comments).");
    assert_eq!(got[1], "Git Repository tracked (1 commits, 1 contributor(s)).");
    assert_eq!(got[2], "Overall Repository Health Rating: A+ (Optimal & Clean)");
}

#[test]
fn text_report_and_names() {
    let s = summarize_scan("/tmp/x", &sample_results(), 5 * 1024 * 1024, GitHealth::default(), 987);
    assert_eq!(
        generate_text(&s),
        "Ferrum-Scan Report\nTarget: /tmp/x\nTotal Files: 4\nTotal LOC: 122\nScan Time: 987 ms\n"
    );
    assert_eq!(default_report_name(OutputFormat::Md), "SCAN_REPORT.md");
    assert_eq!(default_report_name(OutputFormat::Json), "scan_report.json");
    assert_eq!(default_report_name(OutputFormat::Text), "scan_report.txt");
}

#[test]
fn uninstall_confirmation() {
    assert!(confirms_uninstall("y\n"));
    assert!(confirms_uninstall("  YES  "));
    assert!(!confirms_uninstall("no"));
    assert!(!confirms_uninstall(""));
    assert!(!confirms_uninstall("  n y"));
}

#[test]
fn export_is_wanted_for_a_file_or_another_format() {
    assert!(!wants_export(OutputFormat::Text, false));
    assert!(wants_export(OutputFormat::Text, true));
    assert!(wants_export(OutputFormat::Md, false));
    assert!(wants_export(OutputFormat::Json, false));
}
