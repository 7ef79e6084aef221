use ferrum_scan::paths::{is_skipped_by_default, path_components};
use ferrum_scan::text::{
    chars_of, contains_exec, has_prefix_exec, parse_usize_chars, push_decimal, rfind_char,
    split_lines, string_of, trim_str,
};

fn chars(s: &str) -> Vec<char> {
    s.chars().collect()
}

fn strings(v: &[Vec<char>]) -> Vec<String> {
    v.iter().map(|c| c.iter().collect()).collect()
}

#[test]
fn trim_removes_unicode_whitespace() {
    assert_eq!(string_of(&trim_str("  a b \t\n")), "a b");
    assert_eq!(string_of(&trim_str("\u{3000}x\u{a0}")), "x");
    assert_eq!(string_of(&trim_str("   ")), "");
    assert_eq!(string_of(&trim_str("")), "");
}

#[test]
fn split_lines_follows_str_lines() {
    assert_eq!(strings(&split_lines(&chars("a\r\nb\n\nc"))), vec!["a", "b", "", "c"]);
    assert_eq!(strings(&split_lines(&chars("a\n"))), vec!["a"]);
    assert_eq!(strings(&split_lines(&chars("x\r"))), vec!["x\r"]);
    assert!(split_lines(&chars("")).is_empty());
    assert_eq!(strings(&split_lines(&chars("\n"))), vec![""]);
}

#[test]
fn parse_usize_follows_from_str() {
    assert_eq!(parse_usize_chars(&chars("42")), Some(42));
    assert_eq!(parse_usize_chars(&chars("+42")), Some(42));
    assert_eq!(parse_usize_chars(&chars("007")), Some(7));
    assert_eq!(parse_usize_chars(&chars("")), None);
    assert_eq!(parse_usize_chars(&chars("+")), None);
    assert_eq!(parse_usize_chars(&chars("-1")), None);
    assert_eq!(parse_usize_chars(&chars("4 2")), None);
    assert_eq!(parse_usize_chars(&chars("18446744073709551615")), Some(usize::MAX));
    assert_eq!(parse_usize_chars(&chars("18446744073709551616")), None);
    for s in ["0", "12", "+7", "x", "99999999999999999999", "-"] {
        assert_eq!(parse_usize_chars(&chars(s)), s.parse::<usize>().ok());
    }
}

#[test]
fn decimal_printing_matches_display() {
    for n in [0u128, 7, 10, 1234, u64::MAX as u128, u128::MAX] {
        let mut s = String::from("n=");
        push_decimal(&mut s, n);
        assert_eq!(s, format!("n={}", n));
    }
}

#[test]
fn search_helpers() {
    assert!(has_prefix_exec(&chars("/* x"), &chars("/*")));
    assert!(!has_prefix_exec(&chars("/"), &chars("/*")));
    assert!(contains_exec(&chars("a */ b"), &chars("*/")));
    assert!(!contains_exec(&chars("a * / b"), &chars("*/")));
    assert!(contains_exec(&chars(""), &chars("")));
    assert_eq!(rfind_char(&chars("a<b<c"), '<'), Some(3));
    assert_eq!(rfind_char(&chars("abc"), '<'), None);
    assert_eq!(string_of(&chars_of("héllo")), "héllo");
}

#[test]
fn path_components_follow_std() {
    let cases = ["/a//b/./c/", "./x", "a/../b", "", ".", "/", "a/./b", "src/main.rs", "../up"];
    for case in cases {
        let ours = strings(&path_components(&chars(case)));
        let theirs: Vec<String> = std::path::Path::new(case)
            .components()
            .map(|c| match c {
                std::path::Component::RootDir => "/".to_string(),
                std::path::Component::CurDir => ".".to_string(),
                std::path::Component::ParentDir => "..".to_string(),
                std::path::Component::Normal(s) => s.to_string_lossy().to_string(),
                std::path::Component::Prefix(_) => unreachable!(),
            })
            .collect();
        assert_eq!(ours, theirs, "components of {:?}", case);
    }
}

#[test]
fn default_skipped_directories() {
    assert!(is_skipped_by_default("node_modules"));
    assert!(is_skipped_by_default("target"));
    assert!(is_skipped_by_default(".git"));
    assert!(!is_skipped_by_default("src"));
    assert!(!is_skipped_by_default("Target"));
}
