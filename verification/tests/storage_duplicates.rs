use ferrum_scan::duplicates::{duplicate_candidates, group_duplicates};
use ferrum_scan::storage::analyze_storage;

fn files(v: &[(&str, u64)]) -> Vec<(String, u64)> {
    v.iter().map(|(p, s)| (p.to_string(), *s)).collect()
}

fn summary(v: &[ferrum_scan::storage::FolderStat]) -> Vec<(String, u64, usize)> {
    v.iter().map(|f| (f.relative_path.clone(), f.bytes, f.files_count)).collect()
}

#[test]
fn storage_groups_by_top_folder() {
    let fs = files(&[("./src/a.rs", 10), ("./src/deep/b.rs", 5), ("./README.md", 3), ("./docs/x.md", 20)]);
    let r = analyze_storage(&fs, ".");
    assert_eq!(
        summary(&r),
        vec![
            ("docs".to_string(), 20, 1),
            ("src".to_string(), 15, 2),
            ("<root files>".to_string(), 3, 1)
        ]
    );
}

#[test]
fn storage_strips_the_root_prefix() {
    let fs = files(&[("/repo/src/a.rs", 10), ("/repo/Cargo.toml", 4), ("/elsewhere/x/y", 7)]);
    let r = analyze_storage(&fs, "/repo");
    assert_eq!(
        summary(&r),
        vec![
            ("src".to_string(), 10, 1),
            ("elsewhere".to_string(), 7, 1),
            ("<root files>".to_string(), 4, 1)
        ]
    );
    assert!(analyze_storage(&files(&[("/repo", 5)]), "/repo").is_empty());
    assert!(analyze_storage(&[], ".").is_empty());
}

#[test]
fn storage_keeps_the_ten_largest() {
    let mut v = Vec::new();
    for i in 0..12u64 {
        v.push((format!("d{}/f", i), (i + 1) * 100));
    }
    let r = analyze_storage(&v, ".");
    assert_eq!(r.len(), 10);
    assert_eq!(r[0].relative_path, "d11");
    assert_eq!(r[0].bytes, 1200);
    assert_eq!(r[9].relative_path, "d2");
    for w in r.windows(2) {
        assert!(w[0].bytes >= w[1].bytes);
    }
}

#[test]
fn storage_ties_keep_first_seen_order() {
    let r = analyze_storage(&files(&[("b/x", 5), ("a/y", 5), ("c/z", 9)]), ".");
    assert_eq!(
        summary(&r),
        vec![("c".to_string(), 9, 1), ("b".to_string(), 5, 1), ("a".to_string(), 5, 1)]
    );
}

#[test]
fn candidates_share_a_nonzero_size() {
    let fs = files(&[("a", 10), ("b", 10), ("c", 0), ("d", 0), ("e", 5), ("f", 10)]);
    let c = duplicate_candidates(&fs);
    assert_eq!(
        c,
        vec![(10, "a".to_string()), (10, "b".to_string()), (10, "f".to_string())]
    );
    assert!(duplicate_candidates(&files(&[("x", 1), ("y", 2)])).is_empty());
}

#[test]
fn groups_are_ordered_by_wasted_bytes() {
    let hashed: Vec<(u64, u64, String)> = vec![
        (10, 1, "a".to_string()),
        (10, 1, "b".to_string()),
        (10, 2, "c".to_string()),
        (20, 3, "d".to_string()),
        (20, 3, "e".to_string()),
        (20, 3, "f".to_string()),
    ];
    let (groups, wasted) = group_duplicates(&hashed);
    assert_eq!(wasted, 50);
    assert_eq!(groups.len(), 2);
    assert_eq!((groups[0].size_bytes, groups[0].hash), (20, 3));
    assert_eq!(groups[0].files, vec!["d", "e", "f"]);
    assert_eq!((groups[1].size_bytes, groups[1].hash), (10, 1));
    assert_eq!(groups[1].files, vec!["a", "b"]);
    let sum: u64 = groups.iter().map(|g| (g.files.len() as u64 - 1) * g.size_bytes).sum();
    assert_eq!(sum, wasted);
}

#[test]
fn no_groups_without_repeats() {
    let (groups, wasted) = group_duplicates(&[(1, 1, "a".to_string()), (1, 2, "b".to_string())]);
    assert!(groups.is_empty());
    assert_eq!(wasted, 0);
    let (groups, wasted) = group_duplicates(&[]);
    assert!(groups.is_empty());
    assert_eq!(wasted, 0);
}

#[test]
fn storage_accounts_for_every_file() {
    let fs = files(&[
        ("./a/1", 1),
        ("./a/b/2", 2),
        ("./c/3", 4),
        ("./4", 8),
        ("./5", 16),
        (".", 32),
    ]);
    let r = analyze_storage(&fs, ".");
    // Every file but the root itself counts towards exactly one folder.
    assert_eq!(r.iter().map(|f| f.files_count).sum::<usize>(), 5);
    assert_eq!(r.iter().map(|f| f.bytes).sum::<u64>(), 31);
}

#[test]
fn storage_keeps_first_seen_order_among_equal_sizes() {
    let mut v = Vec::new();
    for i in 0..9u64 {
        v.push((format!("d{}/f", i), if i % 3 == 0 { 50 } else { 10 }));
    }
    let r = analyze_storage(&v, ".");
    let names: Vec<&str> = r.iter().map(|f| f.relative_path.as_str()).collect();
    assert_eq!(names, vec!["d0", "d3", "d6", "d1", "d2", "d4", "d5", "d7", "d8"]);
}
