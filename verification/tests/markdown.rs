use ferrum_scan::duplicates::DuplicateGroup;
use ferrum_scan::git::GitHealth;
use ferrum_scan::markdown::generate_markdown;
use ferrum_scan::report::ReportFigures;
use ferrum_scan::metrics::SingleFileMetrics;
use ferrum_scan::scan::summarize_scan;
use ferrum_scan::storage::FolderStat;

fn metrics(lang: &str, bytes: u64, code: usize, blank: usize, comment: usize) -> SingleFileMetrics {
    SingleFileMetrics {
        language: lang.to_string(),
        bytes,
        code_lines: code,
        blank_lines: blank,
        comment_lines: comment,
    }
}

#[test]
fn markdown_report_sections() {
    let results = vec![
        ("src/a.rs".to_string(), metrics("Rust", 10, 8, 1, 1)),
        ("big.bin".to_string(), metrics("Other", 9_000_000, 0, 0, 0)),
    ];
    let mut git = GitHealth::default();
    git.is_git_repo = true;
    git.commit_count = 3;
    git.total_contributors = 1;
    git.top_contributors = vec![("Ann".to_string(), 3)];
    git.last_commit_date = Some("2024-01-01".to_string());
    let mut stats = summarize_scan("/r", &results, 5 * 1024 * 1024, git, 42);
    stats.top_folders = Some(vec![FolderStat { relative_path: "src".to_string(), bytes: 10, files_count: 1 }]);
    stats.duplicate_groups = Some(vec![DuplicateGroup {
        size_bytes: 4,
        hash: 9,
        files: vec!["x".to_string(), "y".to_string()],
    }]);
    stats.total_wasted_bytes = 4;
    stats.insights = vec!["One.".to_string(), "Two.".to_string()];
    let figures = ReportFigures {
        total_size_mb: "8.58".to_string(),
        language_shares: vec!["100.0".to_string(), "0.0".to_string()],
        folder_sizes_mb: vec!["0.00".to_string()],
        wasted_mb: "0.00".to_string(),
        group_sizes_mb: vec!["0.00".to_string()],
        jumbo_sizes_mb: vec!["8.58".to_string()],
    };
    let md = generate_markdown(&stats, "2024-02-02 10:00:00", &figures);
    let expected = "# ⚡ Ferrum-Scan Repository Report\n\n\
- **Scan Date**: 2024-02-02 10:00:00\n\
- **Root Directory**: `/r`\n\
- **Total Files**: `2`\n\
- **Total Size**: `8.58 MB` (9000010 bytes)\n\
- **Scan Duration**: `42 ms`\n\n\
## 📊 Language Breakdown\n\n\
| Language | Files | Code LOC | Blank | Comment | Total LOC | Share % |\n\
| :--- | :---: | :---: | :---: | :---: | :---: | :---: |\n\
| **Rust** | 1 | 8 | 1 | 1 | 10 | 100.0% |\n\
| **Other** | 1 | 0 | 0 | 0 | 0 | 0.0% |\n\
| **TOTAL** | **2** | **8** | **1** | **1** | **10** | **100%** |\n\n\
## 📂 Storage Breakdown (Top Folders)\n\n\
| Folder Name | Files | Size (MB) |\n\
| :--- | :---: | :---: |\n\
| `src` | 1 | 0.00 MB |\n\n\
## 👯 Duplicate Files Detector\n\n\
- **Total Duplicate Groups**: `1`\n\
- **Wasted Storage Space**: `0.00 MB`\n\n\
| Size / File | Copies | Paths |\n\
| :---: | :---: | :--- |\n\
| 0.00 MB | 2 | `x`<br>`y` |\n\n\
## 🩺 Git Health Inspector\n\n\
- **Git Repo**: Yes\n\
- **Total Commits**: `3`\n\
- **Contributors**: `1`\n\
- **Last Commit**: `2024-01-01`\n\
\n### Top Contributors\n\n\
| Contributor | Commits |\n\
| :--- | :---: |\n\
| Ann | 3 |\n\n\
## 🚨 Jumbo Files (> threshold)\n\n\
| File Path | Size (MB) |\n\
| :--- | :---: |\n\
| `big.bin` | 8.58 MB |\n\n\
## 💡 Repository Insights\n\n\
- One.\n\
- Two.\n\n";
    assert_eq!(md, expected);
}

#[test]
fn markdown_report_without_optional_sections() {
    let stats = summarize_scan(".", &Vec::new(), 1, GitHealth::default(), 0);
    let figures = ReportFigures {
        total_size_mb: "0.00".to_string(),
        language_shares: Vec::new(),
        folder_sizes_mb: Vec::new(),
        wasted_mb: "0.00".to_string(),
        group_sizes_mb: Vec::new(),
        jumbo_sizes_mb: Vec::new(),
    };
    let md = generate_markdown(&stats, "d", &figures);
    assert!(md.contains("⚠️ Not a git repository.\n\n## 💡 Repository Insights\n\n\n"));
    assert!(!md.contains("Storage Breakdown"));
    assert!(!md.contains("Duplicate Files"));
    assert!(!md.contains("Jumbo Files"));
}

#[test]
fn markdown_report_carries_the_given_date() {
    let stats = summarize_scan(".", &Vec::new(), 1, GitHealth::default(), 0);
    let figures = ReportFigures {
        total_size_mb: "0.00".to_string(),
        language_shares: Vec::new(),
        folder_sizes_mb: Vec::new(),
        wasted_mb: "0.00".to_string(),
        group_sizes_mb: Vec::new(),
        jumbo_sizes_mb: Vec::new(),
    };
    let md = generate_markdown(&stats, "1999-12-31 23:59:59", &figures);
    assert!(md.starts_with("# ⚡ Ferrum-Scan Repository Report\n\n- **Scan Date**: 1999-12-31 23:59:59\n"));
    assert!(md.ends_with("## 💡 Repository Insights\n\n\n"));
}
