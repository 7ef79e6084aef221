use comfy_table::{Cell, Color, Table};
use ferrum_scan::duplicates::DuplicateGroup;
use ferrum_scan::git::GitHealth;
use ferrum_scan::metrics::SingleFileMetrics;
use ferrum_scan::report::ReportFigures;
use ferrum_scan::scan::{summarize_scan, JumboFile, LanguageStat};
use ferrum_scan::storage::FolderStat;
use ferrum_scan::terminal::{
    duplicate_table, jumbo_table, language_table, storage_table, terminal_report, terminal_report_with,
};

fn texts(row: Option<&comfy_table::Row>) -> Vec<String> {
    row.map(|r| r.cell_iter().map(|c| c.content()).collect()).unwrap_or_default()
}

fn rows(t: &Table) -> Vec<Vec<String>> {
    t.row_iter().map(|r| r.cell_iter().map(|c| c.content()).collect()).collect()
}

fn strings(v: &[&str]) -> Vec<String> {
    v.iter().map(|s| s.to_string()).collect()
}

fn empty_figures() -> ReportFigures {
    ReportFigures {
        total_size_mb: "0.00".to_string(),
        language_shares: Vec::new(),
        folder_sizes_mb: Vec::new(),
        wasted_mb: "0.00".to_string(),
        group_sizes_mb: Vec::new(),
        jumbo_sizes_mb: Vec::new(),
    }
}

#[test]
fn language_table_cells() {
    let langs = vec![LanguageStat {
        name: "Rust".to_string(),
        files: 2,
        code_lines: 30,
        blank_lines: 4,
        comment_lines: 5,
        total_lines: 39,
        bytes: 100,
    }];
    let t = language_table(&langs, &strings(&["100.0"]));
    assert_eq!(
        texts(t.header()),
        strings(&["Language", "Files", "Code LOC", "Blank", "Comment", "Total LOC", "Share %"])
    );
    assert_eq!(rows(&t), vec![strings(&["Rust", "2", "30", "4", "5", "39", "100.0%"])]);
}

#[test]
fn storage_table_cells() {
    let folders = vec![
        FolderStat { relative_path: "src".to_string(), bytes: 10, files_count: 3 },
        FolderStat { relative_path: "docs".to_string(), bytes: 5, files_count: 1 },
    ];
    let t = storage_table(&folders, &strings(&["0.50", "0.25"]));
    assert_eq!(texts(t.header()), strings(&["Folder Name", "Files", "Size (MB)"]));
    assert_eq!(rows(&t), vec![strings(&["src", "3", "0.50 MB"]), strings(&["docs", "1", "0.25 MB"])]);
}

#[test]
fn duplicate_table_lists_ten_groups_in_hex() {
    let mut groups = Vec::new();
    let mut sizes = Vec::new();
    for i in 0..12u64 {
        groups.push(DuplicateGroup {
            size_bytes: 4,
            hash: 250 + i,
            files: vec![format!("a{}", i), format!("b{}", i)],
        });
        sizes.push("0.00".to_string());
    }
    let t = duplicate_table(&groups, &sizes);
    assert_eq!(texts(t.header()), strings(&["Group Hash", "Size/File", "Copies", "Duplicate Paths"]));
    let r = rows(&t);
    assert_eq!(r.len(), 10);
    assert_eq!(r[0], strings(&["fa", "0.00 MB", "2", "a0\nb0"]));
    assert_eq!(r[5], strings(&["ff", "0.00 MB", "2", "a5\nb5"]));
    assert_eq!(r[6][0], "100");
}

#[test]
fn jumbo_table_cells() {
    let jumbo = vec![JumboFile { path: "big.bin".to_string(), bytes: 9_000_000 }];
    let t = jumbo_table(&jumbo, &strings(&["8.58"]));
    assert_eq!(texts(t.header()), strings(&["File Path", "Size (MB)"]));
    assert_eq!(rows(&t), vec![strings(&["big.bin", "8.58 MB"])]);
}

#[test]
fn terminal_report_with_every_section() {
    let results = vec![(
        "src/a.rs".to_string(),
        SingleFileMetrics {
            language: "Rust".to_string(),
            bytes: 10,
            code_lines: 8,
            blank_lines: 1,
            comment_lines: 1,
        },
    ), (
        "big.bin".to_string(),
        SingleFileMetrics {
            language: "Other".to_string(),
            bytes: 9_000_000,
            code_lines: 0,
            blank_lines: 0,
            comment_lines: 0,
        },
    )];
    let mut git = GitHealth::default();
    git.is_git_repo = true;
    git.commit_count = 3;
    git.total_contributors = 1;
    git.top_contributors = vec![("Ann".to_string(), 3)];
    git.last_commit_date = Some("2024-01-01".to_string());
    let mut stats = summarize_scan("/r", &results, 5 * 1024 * 1024, git, 42);
    stats.top_folders = Some(Vec::new());
    stats.duplicate_groups = Some(vec![DuplicateGroup { size_bytes: 4, hash: 9, files: strings(&["x", "y"]) }]);
    stats.insights = strings(&["One."]);
    let figures = ReportFigures {
        total_size_mb: "8.58".to_string(),
        language_shares: strings(&["100.0", "0.0"]),
        folder_sizes_mb: Vec::new(),
        wasted_mb: "0.00".to_string(),
        group_sizes_mb: strings(&["0.00"]),
        jumbo_sizes_mb: strings(&["8.58"]),
    };
    let out = terminal_report_with(&stats, &figures, "LANG", "STORAGE", "DUPS", "JUMBO");
    let expected = "\n⚡ FERRUM-SCAN REPOSITORY REPORT ⚡\n\n\
📌 Path              : /r\n\
📁 Total Files        : 2\n\
💾 Total Size         : 8.58 MB (9000010 bytes)\n\
⏱️  Scan Time         : 42 ms\n\
📝 Total Lines        : 10 (Code: 8, Blank: 1, Comments: 1)\n\n\
--- LANGUAGE BREAKDOWN ---\nLANG\n\n\
--- TOP DIRECTORIES BY STORAGE (--storage) ---\n\
No subdirectories found.\n\n\
--- DUPLICATE FILES DETECTOR (--duplicates) ---\n\
⚠️  Total Wasted Storage Space: 0.00 MB (1 duplicate groups)\n\n\
DUPS\n\n\
--- GIT HEALTH INSPECTOR ---\n\
✅ Git Repository Detected\n\
📊 Total Commits        : 3\n\
👥 Total Contributors   : 1\n\
📅 Last Commit Date     : 2024-01-01\n\
\n🏆 Top Contributors:\n\
\x20\x20\x20• Ann                  : 3 commits\n\
\n\
--- 🚨 JUMBO FILES DETECTED (> threshold) ---\nJUMBO\n\n\
--- 💡 REPOSITORY INSIGHTS ---\n\
• One.\n\n";
    assert_eq!(out, expected);
}

#[test]
fn terminal_report_without_optional_sections() {
    let stats = summarize_scan(".", &Vec::new(), 1, GitHealth::default(), 0);
    let out = terminal_report_with(&stats, &empty_figures(), "LANG", "S", "D", "J");
    assert!(out.ends_with(
        "--- LANGUAGE BREAKDOWN ---\nLANG\n\n\
--- GIT HEALTH INSPECTOR ---\n\
⚠️  Not a git repository (or .git folder not found)\n\n\
--- 💡 REPOSITORY INSIGHTS ---\n\n"
    ));
    assert!(!out.contains("STORAGE"));
    assert!(!out.contains("DUPLICATE"));
    assert!(!out.contains("JUMBO"));
}

#[test]
fn terminal_report_draws_tables() {
    let mut stats = summarize_scan(".", &Vec::new(), 1, GitHealth::default(), 0);
    stats.top_folders = Some(vec![FolderStat { relative_path: "srcdir".to_string(), bytes: 1, files_count: 1 }]);
    stats.duplicate_groups = Some(Vec::new());
    let mut figures = empty_figures();
    figures.folder_sizes_mb = strings(&["0.00"]);
    let out = terminal_report(&stats, &figures);
    assert!(out.starts_with("\n⚡ FERRUM-SCAN REPOSITORY REPORT ⚡\n\n"));
    assert!(out.contains("Folder Name"));
    assert!(out.contains("srcdir"));
    assert!(out.contains("✅ No duplicate files found.\n\n"));
    assert!(out.contains("Share %"));
}

#[test]
fn contributor_names_are_padded_but_not_cut() {
    let mut git = GitHealth::default();
    git.is_git_repo = true;
    git.top_contributors = vec![("A-very-long-contributor-name".to_string(), 7)];
    let stats = summarize_scan(".", &Vec::new(), 1, git, 0);
    let out = terminal_report_with(&stats, &empty_figures(), "", "", "", "");
    assert!(out.contains("   • A-very-long-contributor-name : 7 commits\n"));
}

#[test]
fn table_cells_carry_their_colours() {
    let folders = vec![FolderStat { relative_path: "src".to_string(), bytes: 10, files_count: 3 }];
    let t = storage_table(&folders, &strings(&["0.50"]));
    let header: Vec<Cell> = t.header().map(|r| r.cell_iter().cloned().collect()).unwrap_or_default();
    assert_eq!(
        header,
        vec![
            Cell::new("Folder Name").fg(Color::Yellow),
            Cell::new("Files").fg(Color::Cyan),
            Cell::new("Size (MB)").fg(Color::Green),
        ]
    );
    let row: Vec<Cell> = t.row(0).map(|r| r.cell_iter().cloned().collect()).unwrap_or_default();
    assert_eq!(
        row,
        vec![Cell::new("src").fg(Color::Yellow), Cell::new("3"), Cell::new("0.50 MB").fg(Color::Green)]
    );
    let jumbo = vec![JumboFile { path: "big.bin".to_string(), bytes: 9 }];
    let j = jumbo_table(&jumbo, &strings(&["0.00"]));
    let jrow: Vec<Cell> = j.row(0).map(|r| r.cell_iter().cloned().collect()).unwrap_or_default();
    assert_eq!(jrow, vec![Cell::new("big.bin"), Cell::new("0.00 MB")]);
}
