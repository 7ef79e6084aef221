use ferrum_scan::git::{
    inspect_git, parse_commit_count, parse_contributors, parse_last_commit_date,
    shortlog_is_readable, try_inspect_git,
};

#[test]
fn commit_count_parsing() {
    assert_eq!(parse_commit_count("42\n"), 42);
    assert_eq!(parse_commit_count("  7  "), 7);
    assert_eq!(parse_commit_count("abc"), 0);
    assert_eq!(parse_commit_count(""), 0);
}

#[test]
fn last_commit_date_parsing() {
    assert_eq!(parse_last_commit_date("2024-01-02\n"), Some("2024-01-02".to_string()));
    assert_eq!(parse_last_commit_date(" \n"), None);
}

#[test]
fn contributors_merge_by_email() {
    let out = "    10\tAlice <ALICE@x.com>\n     3\tBob <bob@y.com>\n     5\tAlice Smith <alice@X.com>\n";
    assert!(shortlog_is_readable(out));
    assert_eq!(
        parse_contributors(out),
        vec![("Alice".to_string(), 15), ("Bob".to_string(), 3)]
    );
}

#[test]
fn contributors_without_email_and_junk_lines() {
    let out = "2\tAnon\n\nnot a line\nx\tNoCount <n@n>\n     4\tanon\n 1\tZed <z@z>\n";
    assert_eq!(
        parse_contributors(out),
        vec![("Anon".to_string(), 6), ("Zed".to_string(), 1)]
    );
}

#[test]
fn contributors_ties_keep_first_seen_order() {
    let out = "1\tA <a@a>\n1\tB <b@b>\n2\tC <c@c>\n";
    assert_eq!(
        parse_contributors(out),
        vec![("C".to_string(), 2), ("A".to_string(), 1), ("B".to_string(), 1)]
    );
}

#[test]
fn unreadable_shortlog() {
    assert!(!shortlog_is_readable("1\tfoo > bar <x\n"));
    let big = format!("{}\tA <a@a>\n1\tA <a@a>\n", usize::MAX);
    assert!(!shortlog_is_readable(&big));
    assert!(try_inspect_git(true, None, Some(big), None).is_none());
    assert!(try_inspect_git(false, None, Some("1\tfoo > bar <x".to_string()), None).is_some());
}

#[test]
fn not_a_repository_gets_the_default() {
    let h = inspect_git(false, Some("5".to_string()), None, Some("2024-01-01".to_string()));
    assert!(!h.is_git_repo);
    assert_eq!(h.commit_count, 0);
    assert_eq!(h.total_contributors, 0);
    assert!(h.top_contributors.is_empty());
    assert_eq!(h.last_commit_date, None);
}

#[test]
fn repository_health_lists_five_contributors() {
    let mut out = String::new();
    for (i, n) in ["a", "b", "c", "d", "e", "f", "g"].iter().enumerate() {
        out.push_str(&format!("{}\t{} <{}@x>\n", 10 - i, n, n));
    }
    let h = inspect_git(true, Some("120\n".to_string()), Some(out), Some("2023-05-06\n".to_string()));
    assert!(h.is_git_repo);
    assert_eq!(h.commit_count, 120);
    assert_eq!(h.total_contributors, 7);
    assert_eq!(h.active_contributors, 7);
    assert_eq!(h.top_contributors.len(), 5);
    assert_eq!(h.top_contributors[0], ("a".to_string(), 10));
    assert_eq!(h.top_contributors[4], ("e".to_string(), 6));
    assert_eq!(h.last_commit_date, Some("2023-05-06".to_string()));
    let h = inspect_git(true, None, None, None);
    assert!(h.is_git_repo);
    assert_eq!(h.commit_count, 0);
    assert_eq!(h.total_contributors, 0);
}

#[test]
fn top_contributors_come_most_commits_first() {
    let out = "1\tA <a@x>\n5\tB <b@x>\n3\tC <c@x>\n5\tD <d@x>\n".to_string();
    let h = inspect_git(true, None, Some(out), None);
    let counts: Vec<usize> = h.top_contributors.iter().map(|c| c.1).collect();
    assert_eq!(counts, vec![5, 5, 3, 1]);
    assert_eq!(h.top_contributors[0].0, "B");
    assert_eq!(h.top_contributors[1].0, "D");
    assert_eq!(h.active_contributors, h.total_contributors);
}

#[test]
fn top_contributors_are_the_first_five_contributors() {
    let out = "2\tA <a@x>\n9\tB <b@x>\n2\tC <c@x>\n7\tD <d@x>\n2\tE <e@x>\n4\tF <f@x>\n1\tG <G@X>\n3\tg <g@x>\n"
        .to_string();
    let all = parse_contributors(&out);
    let h = inspect_git(true, None, Some(out), None);
    assert_eq!(h.total_contributors, all.len());
    assert_eq!(h.total_contributors, 7);
    assert_eq!(h.top_contributors, all[..5].to_vec());
    assert_eq!(all[0], ("B".to_string(), 9));
    assert_eq!(all[3], ("G".to_string(), 4));
}
