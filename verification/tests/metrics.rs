use ferrum_scan::metrics::{analyze_lines, comment_prefix_for, detect_language, extension_chars, language_for};

fn lines(v: &[&str]) -> Vec<String> {
    v.iter().map(|s| s.to_string()).collect()
}

#[test]
fn detect_language_by_name_and_extension() {
    assert_eq!(detect_language("src/main.rs"), "Rust");
    assert_eq!(detect_language("Dockerfile"), "Dockerfile");
    assert_eq!(detect_language("deploy/dockerfile"), "Dockerfile");
    assert_eq!(detect_language("Makefile"), "Makefile");
    assert_eq!(detect_language("x/Cargo.lock"), "Rust");
    assert_eq!(detect_language("web/package.json"), "JSON");
    assert_eq!(detect_language("a/b.json"), "JSON");
    assert_eq!(detect_language("k.TSX"), "TypeScript (TSX)");
    assert_eq!(detect_language("SCRIPT.PY"), "Python");
    assert_eq!(detect_language("lib.hpp"), "C++");
    assert_eq!(detect_language("run.ps1"), "Shell Script");
    assert_eq!(detect_language(".bashrc"), "Other");
    assert_eq!(detect_language("README"), "Other");
    assert_eq!(detect_language("notes."), "Other");
    assert_eq!(detect_language("a.tar.gz"), "Other");
    assert_eq!(detect_language("dir/"), "Other");
}

#[test]
fn extension_matches_std() {
    for p in ["a.rs", ".bashrc", "foo.", "a.tar.gz", "dir/", "..", "x/.y.z", "noext", "/"] {
        let ours: Option<String> = extension_chars(&p.chars().collect::<Vec<_>>()).map(|v| v.into_iter().collect());
        let theirs = std::path::Path::new(p).extension().map(|e| e.to_string_lossy().to_string());
        assert_eq!(ours, theirs, "extension of {:?}", p);
    }
}

#[test]
fn language_for_prefers_the_file_name() {
    assert_eq!(language_for("Cargo.toml", "toml"), "Rust");
    assert_eq!(language_for("Cargo.toml", "rs"), "Rust");
    assert_eq!(language_for("x.toml", "toml"), "TOML");
    assert_eq!(language_for("x", ""), "Other");
}

#[test]
fn comment_prefixes() {
    assert_eq!(comment_prefix_for("Rust"), "//");
    assert_eq!(comment_prefix_for("Python"), "#");
    assert_eq!(comment_prefix_for("Makefile"), "#");
    assert_eq!(comment_prefix_for("SQL"), "--");
    assert_eq!(comment_prefix_for("Markdown"), "//");
}

#[test]
fn counts_rust_lines() {
    let src = lines(&[
        "fn main() {",
        "    // a comment",
        "",
        "   ",
        "/* block",
        "   still inside",
        "end */ let x = 1;",
        "    let y = 2;",
        "/* one line */",
        "}",
    ]);
    let m = analyze_lines("src/main.rs", 123, &src);
    assert_eq!(m.language, "Rust");
    assert_eq!(m.bytes, 123);
    assert_eq!(m.code_lines, 3);
    assert_eq!(m.blank_lines, 2);
    assert_eq!(m.comment_lines, 5);
    assert_eq!(m.code_lines + m.blank_lines + m.comment_lines, src.len());
}

#[test]
fn counts_python_and_sql_lines() {
    let py = lines(&["# header", "x = 1  # trailing", "", "// not a comment here"]);
    let m = analyze_lines("tool.py", 0, &py);
    assert_eq!((m.code_lines, m.blank_lines, m.comment_lines), (2, 1, 1));
    let sql = lines(&["-- note", "SELECT 1;", "/* c */"]);
    let m = analyze_lines("q.sql", 0, &sql);
    assert_eq!((m.code_lines, m.blank_lines, m.comment_lines), (1, 0, 2));
    let m = analyze_lines("empty.txt", 0, &Vec::new());
    assert_eq!((m.code_lines, m.blank_lines, m.comment_lines), (0, 0, 0));
    assert_eq!(m.language, "Other");
}

#[test]
fn only_the_last_component_decides_the_language() {
    for name in ["main.rs", "Makefile", "Cargo.toml", "README.MD", "noext", ".bashrc", "a.tar.gz"] {
        for dir in ["", "src", "/abs/dir", "a/b/", "./x", "../up"] {
            let joined = format!("{}/{}", dir, name);
            assert_eq!(detect_language(&joined), detect_language(name), "{}", joined);
        }
    }
}
