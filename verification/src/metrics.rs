//! Per-file metrics: the language a file is written in, judged by its name,
//! and how many of its lines are code, blank or comments.

use vstd::prelude::*;
use crate::text::{trim, has_prefix, contains_seq, rfind, lowercase, chars_of, chars_eq_str,
    trim_chars, has_prefix_exec, contains_exec, lowercase_chars, rfind_char, slice_chars,
    lemma_rfind_bounds, views, strs, lemma_texts_differ};
use crate::paths::{file_name, path_components, is_normal_exec, is_kept, is_normal,
    lemma_file_name_of_join};

verus! {

/// What one file contributes to the scan.
#[derive(Debug, Clone)]
pub struct SingleFileMetrics {
    pub language: String,
    pub bytes: u64,
    pub code_lines: usize,
    pub blank_lines: usize,
    pub comment_lines: usize,
}

// ---------------------------------------------------------------------------
// Language detection
// ---------------------------------------------------------------------------

/// The extension of the file a path names (`Path::extension`): what
/// follows the last `.` of the file name, unless that `.` opens the name.
pub open spec fn extension(path: Seq<char>) -> Option<Seq<char>> {
    match file_name(path) {
        None => None,
        Some(name) => match rfind(name, '.') {
            None => None,
            Some(i) => if i == 0 {
                None
            } else {
                Some(name.skip(i + 1))
            },
        },
    }
}

/// The language of files with a well-known name, whatever their extension.
pub open spec fn special_file_language(name: Seq<char>) -> Option<Seq<char>> {
    if name == "Dockerfile"@ || name == "dockerfile"@ {
        Some("Dockerfile"@)
    } else if name == "Makefile"@ || name == "makefile"@ {
        Some("Makefile"@)
    } else if name == "Cargo.toml"@ || name == "Cargo.lock"@ {
        Some("Rust"@)
    } else if name == "package.json"@ || name == "tsconfig.json"@ {
        Some("JSON"@)
    } else {
        None
    }
}

/// The language that a (lower-case) extension stands for.
pub open spec fn extension_language(ext: Seq<char>) -> Seq<char> {
    if ext == "rs"@ {
        "Rust"@
    } else if ext == "js"@ || ext == "mjs"@ || ext == "cjs"@ {
        "JavaScript"@
    } else if ext == "ts"@ || ext == "mts"@ || ext == "cts"@ {
        "TypeScript"@
    } else if ext == "jsx"@ {
        "JavaScript (JSX)"@
    } else if ext == "tsx"@ {
        "TypeScript (TSX)"@
    } else if ext == "py"@ {
        "Python"@
    } else if ext == "go"@ {
        "Go"@
    } else if ext == "c"@ || ext == "h"@ {
        "C"@
    } else if ext == "cpp"@ || ext == "hpp"@ || ext == "cc"@ || ext == "cxx"@ {
        "C++"@
    } else if ext == "java"@ {
        "Java"@
    } else if ext == "kt"@ || ext == "kts"@ {
        "Kotlin"@
    } else if ext == "swift"@ {
        "Swift"@
    } else if ext == "cs"@ {
        "C#"@
    } else if ext == "html"@ || ext == "htm"@ {
        "HTML"@
    } else if ext == "css"@ || ext == "scss"@ || ext == "sass"@ {
        "CSS"@
    } else if ext == "svelte"@ {
        "Svelte"@
    } else if ext == "vue"@ {
        "Vue"@
    } else if ext == "json"@ {
        "JSON"@
    } else if ext == "toml"@ {
        "TOML"@
    } else if ext == "yaml"@ || ext == "yml"@ {
        "YAML"@
    } else if ext == "md"@ || ext == "markdown"@ {
        "Markdown"@
    } else if ext == "sh"@ || ext == "bash"@ || ext == "zsh"@ || ext == "ps1"@ {
        "Shell Script"@
    } else if ext == "sql"@ {
        "SQL"@
    } else if ext == "lua"@ {
        "Lua"@
    } else if ext == "hs"@ {
        "Haskell"@
    } else if ext == "rb"@ {
        "Ruby"@
    } else if ext == "php"@ {
        "PHP"@
    } else if ext == "dart"@ {
        "Dart"@
    } else if ext == "zig"@ {
        "Zig"@
    } else if ext == "xml"@ {
        "XML"@
    } else {
        "Other"@
    }
}

/// The language of a file given its name and its lower-cased extension.
pub open spec fn language_name(name: Seq<char>, lower_ext: Seq<char>) -> Seq<char> {
    match special_file_language(name) {
        Some(l) => l,
        None => extension_language(lower_ext),
    }
}

/// The language `detect_language` reports for a path: by the file name
/// where it is a well-known one, else by the extension in lower case
/// (an empty one where there is none).
pub open spec fn detected_language(path: Seq<char>) -> Seq<char> {
    let name = match file_name(path) {
        Some(n) => n,
        None => Seq::empty(),
    };
    let ext = match extension(path) {
        Some(e) => e,
        None => Seq::empty(),
    };
    language_name(name, lowercase(ext))
}

/// Only the last component of a path decides its language: a name without
/// separators (neither `.` nor `..`) has the same language below any
/// directory as on its own.
pub proof fn lemma_language_of_join(dir: Seq<char>, name: Seq<char>)
    requires
        !name.contains('/'),
        is_kept(name),
        is_normal(name),
    ensures
        detected_language(dir + seq!['/'] + name) == detected_language(name),
{
    lemma_file_name_of_join(dir, name);
}

/// An owned copy of a string slice.
fn owned(s: &str) -> (r: String)
    ensures
        r@ == s@,
{
    s.to_owned()
}

/// The language for a file name and an already lower-cased extension.
pub fn language_for(name: &str, lower_ext: &str) -> (r: String)
    ensures
        r@ == language_name(name@, lower_ext@),
{
    let n = chars_of(name);
    let n = n.as_slice();
    if chars_eq_str(n, "Dockerfile") || chars_eq_str(n, "dockerfile") {
        return owned("Dockerfile");
    } else if chars_eq_str(n, "Makefile") || chars_eq_str(n, "makefile") {
        return owned("Makefile");
    } else if chars_eq_str(n, "Cargo.toml") || chars_eq_str(n, "Cargo.lock") {
        return owned("Rust");
    } else if chars_eq_str(n, "package.json") || chars_eq_str(n, "tsconfig.json") {
        return owned("JSON");
    }
    let e = chars_of(lower_ext);
    let e = e.as_slice();
    let lang = if chars_eq_str(e, "rs") {
        "Rust"
    } else if chars_eq_str(e, "js") || chars_eq_str(e, "mjs") || chars_eq_str(e, "cjs") {
        "JavaScript"
    } else if chars_eq_str(e, "ts") || chars_eq_str(e, "mts") || chars_eq_str(e, "cts") {
        "TypeScript"
    } else if chars_eq_str(e, "jsx") {
        "JavaScript (JSX)"
    } else if chars_eq_str(e, "tsx") {
        "TypeScript (TSX)"
    } else if chars_eq_str(e, "py") {
        "Python"
    } else if chars_eq_str(e, "go") {
        "Go"
    } else if chars_eq_str(e, "c") || chars_eq_str(e, "h") {
        "C"
    } else if chars_eq_str(e, "cpp") || chars_eq_str(e, "hpp") || chars_eq_str(e, "cc")
        || chars_eq_str(e, "cxx") {
        "C++"
    } else if chars_eq_str(e, "java") {
        "Java"
    } else if chars_eq_str(e, "kt") || chars_eq_str(e, "kts") {
        "Kotlin"
    } else if chars_eq_str(e, "swift") {
        "Swift"
    } else if chars_eq_str(e, "cs") {
        "C#"
    } else if chars_eq_str(e, "html") || chars_eq_str(e, "htm") {
        "HTML"
    } else if chars_eq_str(e, "css") || chars_eq_str(e, "scss") || chars_eq_str(e, "sass") {
        "CSS"
    } else if chars_eq_str(e, "svelte") {
        "Svelte"
    } else if chars_eq_str(e, "vue") {
        "Vue"
    } else if chars_eq_str(e, "json") {
        "JSON"
    } else if chars_eq_str(e, "toml") {
        "TOML"
    } else if chars_eq_str(e, "yaml") || chars_eq_str(e, "yml") {
        "YAML"
    } else if chars_eq_str(e, "md") || chars_eq_str(e, "markdown") {
        "Markdown"
    } else if chars_eq_str(e, "sh") || chars_eq_str(e, "bash") || chars_eq_str(e, "zsh")
        || chars_eq_str(e, "ps1") {
        "Shell Script"
    } else if chars_eq_str(e, "sql") {
        "SQL"
    } else if chars_eq_str(e, "lua") {
        "Lua"
    } else if chars_eq_str(e, "hs") {
        "Haskell"
    } else if chars_eq_str(e, "rb") {
        "Ruby"
    } else if chars_eq_str(e, "php") {
        "PHP"
    } else if chars_eq_str(e, "dart") {
        "Dart"
    } else if chars_eq_str(e, "zig") {
        "Zig"
    } else if chars_eq_str(e, "xml") {
        "XML"
    } else {
        "Other"
    };
    owned(lang)
}

/// The file name of a path (`Path::file_name`), as characters.
pub fn file_name_chars(path: &[char]) -> (r: Option<Vec<char>>)
    ensures
        r matches Some(n) ==> file_name(path@) == Some(n@),
        r is None ==> file_name(path@) is None,
{
    let c = path_components(path);
    if c.len() == 0 {
        return None;
    }
    let last = c.len() - 1;
    proof {
        assert(views(c@).last() == c@[last as int]@);
    }
    if is_normal_exec(&c[last]) {
        Some(c[last].clone())
    } else {
        None
    }
}

/// The extension of the file a path names (`Path::extension`).
pub fn extension_chars(path: &[char]) -> (r: Option<Vec<char>>)
    ensures
        r matches Some(e) ==> extension(path@) == Some(e@),
        r is None ==> extension(path@) is None,
{
    match file_name_chars(path) {
        None => None,
        Some(name) => {
            proof {
                lemma_rfind_bounds(name@, '.');
            }
            match rfind_char(name.as_slice(), '.') {
                None => None,
                Some(i) => if i == 0 {
                    None
                } else {
                    Some(slice_chars(name.as_slice(), i + 1, name.len()))
                },
            }
        },
    }
}

/// The language of the file a path names: `Dockerfile`, `Makefile`,
/// `Cargo.toml`/`Cargo.lock` and `package.json`/`tsconfig.json` by name,
/// anything else by its extension without regard to case, and `Other` for
/// an extension that is not known.
pub fn detect_language(path: &str) -> (r: String)
    ensures
        r@ == detected_language(path@),
{
    let p = chars_of(path);
    let name = match file_name_chars(p.as_slice()) {
        Some(n) => n,
        None => Vec::new(),
    };
    let ext = match extension_chars(p.as_slice()) {
        Some(e) => e,
        None => Vec::new(),
    };
    let lower = lowercase_chars(ext.as_slice());
    let name_s = crate::text::string_of(name.as_slice());
    let lower_s = crate::text::string_of(lower.as_slice());
    language_for(name_s.as_str(), lower_s.as_str())
}

// ---------------------------------------------------------------------------
// Line classification
// ---------------------------------------------------------------------------

/// The prefix that opens a line comment in a language.
pub open spec fn comment_prefix(language: Seq<char>) -> Seq<char> {
    let l = language;
    if l == "Python"@ || l == "Shell Script"@ || l == "Ruby"@ || l == "YAML"@ || l == "TOML"@
        || l == "Dockerfile"@ || l == "Makefile"@ {
        "#"@
    } else if l == "SQL"@ || l == "Lua"@ || l == "Haskell"@ {
        "--"@
    } else {
        "//"@
    }
}

/// The prefix that opens a line comment in a language.
pub fn comment_prefix_for(language: &str) -> (r: String)
    ensures
        r@ == comment_prefix(language@),
{
    let l = chars_of(language);
    let l = l.as_slice();
    if chars_eq_str(l, "Python") || chars_eq_str(l, "Shell Script") || chars_eq_str(l, "Ruby")
        || chars_eq_str(l, "YAML") || chars_eq_str(l, "TOML") || chars_eq_str(l, "Dockerfile")
        || chars_eq_str(l, "Makefile") {
        owned("#")
    } else if chars_eq_str(l, "SQL") || chars_eq_str(l, "Lua") || chars_eq_str(l, "Haskell") {
        owned("--")
    } else {
        owned("//")
    }
}

/// Code, blank and comment lines among `lines`, and whether a block comment
/// is still open after them. A line is blank when only whitespace; inside a
/// block comment, or opening one with `/*`, it is a comment (a `*/` on it
/// closes the block); a line starting with the language's comment prefix is
/// a comment; every other line is code.
pub open spec fn line_counts(lines: Seq<Seq<char>>, prefix: Seq<char>) -> (nat, nat, nat, bool)
    decreases lines.len(),
{
    if lines.len() == 0 {
        (0, 0, 0, false)
    } else {
        let (code, blank, comment, in_block) = line_counts(lines.drop_last(), prefix);
        let t = trim(lines.last());
        if t.len() == 0 {
            (code, blank + 1, comment, in_block)
        } else if in_block || has_prefix(t, "/*"@) {
            (code, blank, comment + 1, !contains_seq(t, "*/"@))
        } else if has_prefix(t, prefix) {
            (code, blank, comment + 1, false)
        } else {
            (code + 1, blank, comment, false)
        }
    }
}

/// Every line is counted exactly once.
pub proof fn lemma_line_counts_total(lines: Seq<Seq<char>>, prefix: Seq<char>)
    ensures
        line_counts(lines, prefix).0 + line_counts(lines, prefix).1 + line_counts(lines, prefix).2
            == lines.len(),
    decreases lines.len(),
{
    if lines.len() > 0 {
        lemma_line_counts_total(lines.drop_last(), prefix);
    }
}

/// The metrics of a file from its path, its size in bytes and its lines
/// (as `BufRead::lines` reads them): the detected language, the size, and
/// the code, blank and comment lines, which together are all the lines.
pub fn analyze_lines(path: &str, bytes: u64, lines: &Vec<String>) -> (m: SingleFileMetrics)
    ensures
        m.language@ == detected_language(path@),
        m.bytes == bytes,
        ({
            let (code, blank, comment, _) = line_counts(
                strs(lines@),
                comment_prefix(detected_language(path@)),
            );
            &&& m.code_lines as nat == code
            &&& m.blank_lines as nat == blank
            &&& m.comment_lines as nat == comment
        }),
        m.code_lines + m.blank_lines + m.comment_lines == lines@.len(),
{
    let language = detect_language(path);
    let prefix_s = comment_prefix_for(language.as_str());
    let prefix = chars_of(prefix_s.as_str());
    let open_block = chars_of("/*");
    let close_block = chars_of("*/");
    let ghost ls = strs(lines@);
    let ghost pf = comment_prefix(language@);
    let mut code: usize = 0;
    let mut blank: usize = 0;
    let mut comment: usize = 0;
    let mut in_block = false;
    let mut i: usize = 0;
    while i < lines.len()
        invariant
            i <= lines@.len(),
            ls == strs(lines@),
            prefix@ == pf,
            open_block@ == "/*"@,
            close_block@ == "*/"@,
            line_counts(ls.take(i as int), pf) == (code as nat, blank as nat, comment as nat, in_block),
            code + blank + comment == i,
        decreases lines@.len() - i,
    {
        proof {
            assert(ls.take(i + 1).drop_last() == ls.take(i as int));
            assert(ls.take(i + 1).last() == lines@[i as int]@);
        }
        let line = chars_of(lines[i].as_str());
        let t = trim_chars(line.as_slice());
        if t.len() == 0 {
            blank = blank + 1;
        } else if in_block || has_prefix_exec(t.as_slice(), open_block.as_slice()) {
            comment = comment + 1;
            in_block = !contains_exec(t.as_slice(), close_block.as_slice());
        } else if has_prefix_exec(t.as_slice(), prefix.as_slice()) {
            comment = comment + 1;
            in_block = false;
        } else {
            code = code + 1;
        }
        i = i + 1;
    }
    proof {
        assert(ls.take(lines@.len() as int) == ls);
    }
    SingleFileMetrics { language, bytes, code_lines: code, blank_lines: blank, comment_lines: comment }
}

/// Each further line counts once, by its kind: an empty (or all-space)
/// line as blank; inside a block comment, or opening one with `/*`, as a
/// comment; starting with the language's comment prefix as a comment; any
/// other line as code. A block comment stays open until a line holds `*/`.
pub proof fn lemma_each_line_counts_by_kind(lines: Seq<Seq<char>>, prefix: Seq<char>, line: Seq<char>)
    ensures
        ({
            let (code, blank, comment, in_block) = line_counts(lines, prefix);
            let (code2, blank2, comment2, in_block2) = line_counts(lines.push(line), prefix);
            let t = trim(line);
            &&& t.len() == 0 ==> code2 == code && blank2 == blank + 1 && comment2 == comment
                && in_block2 == in_block
            &&& t.len() > 0 && (in_block || has_prefix(t, "/*"@)) ==> code2 == code && blank2 == blank
                && comment2 == comment + 1 && in_block2 == !contains_seq(t, "*/"@)
            &&& t.len() > 0 && !in_block && !has_prefix(t, "/*"@) && has_prefix(t, prefix) ==> code2
                == code && blank2 == blank && comment2 == comment + 1 && !in_block2
            &&& t.len() > 0 && !in_block && !has_prefix(t, "/*"@) && !has_prefix(t, prefix) ==> code2
                == code + 1 && blank2 == blank && comment2 == comment && !in_block2
        }),
{
    assert(lines.push(line).drop_last() == lines);
    assert(lines.push(line).last() == line);
}

// ---------------------------------------------------------------------------
// The language tables
// ---------------------------------------------------------------------------

/// Each known extension and the language it stands for; an unknown
/// extension such as `txt`, and none at all, is `Other`.
pub proof fn lemma_extension_table()
    ensures
        extension_language("rs"@) == "Rust"@,
        extension_language("js"@) == "JavaScript"@,
        extension_language("mjs"@) == "JavaScript"@,
        extension_language("cjs"@) == "JavaScript"@,
        extension_language("ts"@) == "TypeScript"@,
        extension_language("mts"@) == "TypeScript"@,
        extension_language("cts"@) == "TypeScript"@,
        extension_language("jsx"@) == "JavaScript (JSX)"@,
        extension_language("tsx"@) == "TypeScript (TSX)"@,
        extension_language("py"@) == "Python"@,
        extension_language("go"@) == "Go"@,
        extension_language("c"@) == "C"@,
        extension_language("h"@) == "C"@,
        extension_language("cpp"@) == "C++"@,
        extension_language("hpp"@) == "C++"@,
        extension_language("cc"@) == "C++"@,
        extension_language("cxx"@) == "C++"@,
        extension_language("java"@) == "Java"@,
        extension_language("kt"@) == "Kotlin"@,
        extension_language("kts"@) == "Kotlin"@,
        extension_language("swift"@) == "Swift"@,
        extension_language("cs"@) == "C#"@,
        extension_language("html"@) == "HTML"@,
        extension_language("htm"@) == "HTML"@,
        extension_language("css"@) == "CSS"@,
        extension_language("scss"@) == "CSS"@,
        extension_language("sass"@) == "CSS"@,
        extension_language("svelte"@) == "Svelte"@,
        extension_language("vue"@) == "Vue"@,
        extension_language("json"@) == "JSON"@,
        extension_language("toml"@) == "TOML"@,
        extension_language("yaml"@) == "YAML"@,
        extension_language("yml"@) == "YAML"@,
        extension_language("md"@) == "Markdown"@,
        extension_language("markdown"@) == "Markdown"@,
        extension_language("sh"@) == "Shell Script"@,
        extension_language("bash"@) == "Shell Script"@,
        extension_language("zsh"@) == "Shell Script"@,
        extension_language("ps1"@) == "Shell Script"@,
        extension_language("sql"@) == "SQL"@,
        extension_language("lua"@) == "Lua"@,
        extension_language("hs"@) == "Haskell"@,
        extension_language("rb"@) == "Ruby"@,
        extension_language("php"@) == "PHP"@,
        extension_language("dart"@) == "Dart"@,
        extension_language("zig"@) == "Zig"@,
        extension_language("xml"@) == "XML"@,
        extension_language(""@) == "Other"@,
        extension_language("txt"@) == "Other"@,
{
    lemma_texts_differ();
    reveal_strlit("");
    reveal_strlit("bash");
    reveal_strlit("c");
    reveal_strlit("cc");
    reveal_strlit("cjs");
    reveal_strlit("cpp");
    reveal_strlit("cs");
    reveal_strlit("css");
    reveal_strlit("cts");
    reveal_strlit("cxx");
    reveal_strlit("dart");
    reveal_strlit("go");
    reveal_strlit("h");
    reveal_strlit("hpp");
    reveal_strlit("hs");
    reveal_strlit("htm");
    reveal_strlit("html");
    reveal_strlit("java");
    reveal_strlit("js");
    reveal_strlit("json");
    reveal_strlit("jsx");
    reveal_strlit("kt");
    reveal_strlit("kts");
    reveal_strlit("lua");
    reveal_strlit("markdown");
    reveal_strlit("md");
    reveal_strlit("mjs");
    reveal_strlit("mts");
    reveal_strlit("php");
    reveal_strlit("ps1");
    reveal_strlit("py");
    reveal_strlit("rb");
    reveal_strlit("rs");
    reveal_strlit("sass");
    reveal_strlit("scss");
    reveal_strlit("sh");
    reveal_strlit("sql");
    reveal_strlit("svelte");
    reveal_strlit("swift");
    reveal_strlit("toml");
    reveal_strlit("ts");
    reveal_strlit("tsx");
    reveal_strlit("txt");
    reveal_strlit("vue");
    reveal_strlit("xml");
    reveal_strlit("yaml");
    reveal_strlit("yml");
    reveal_strlit("zig");
    reveal_strlit("zsh");
    assert(""@.len() == 0);
    assert("bash"@.len() == 4);
    assert("c"@.len() == 1);
    assert("cc"@.len() == 2);
    assert("cjs"@.len() == 3);
    assert("cpp"@.len() == 3);
    assert("cs"@.len() == 2);
    assert("css"@.len() == 3);
    assert("cts"@.len() == 3);
    assert("cxx"@.len() == 3);
    assert("dart"@.len() == 4);
    assert("go"@.len() == 2);
    assert("h"@.len() == 1);
    assert("hpp"@.len() == 3);
    assert("hs"@.len() == 2);
    assert("htm"@.len() == 3);
    assert("html"@.len() == 4);
    assert("java"@.len() == 4);
    assert("js"@.len() == 2);
    assert("json"@.len() == 4);
    assert("jsx"@.len() == 3);
    assert("kt"@.len() == 2);
    assert("kts"@.len() == 3);
    assert("lua"@.len() == 3);
    assert("markdown"@.len() == 8);
    assert("md"@.len() == 2);
    assert("mjs"@.len() == 3);
    assert("mts"@.len() == 3);
    assert("php"@.len() == 3);
    assert("ps1"@.len() == 3);
    assert("py"@.len() == 2);
    assert("rb"@.len() == 2);
    assert("rs"@.len() == 2);
    assert("sass"@.len() == 4);
    assert("scss"@.len() == 4);
    assert("sh"@.len() == 2);
    assert("sql"@.len() == 3);
    assert("svelte"@.len() == 6);
    assert("swift"@.len() == 5);
    assert("toml"@.len() == 4);
    assert("ts"@.len() == 2);
    assert("tsx"@.len() == 3);
    assert("txt"@.len() == 3);
    assert("vue"@.len() == 3);
    assert("xml"@.len() == 3);
    assert("yaml"@.len() == 4);
    assert("yml"@.len() == 3);
    assert("zig"@.len() == 3);
    assert("zsh"@.len() == 3);
    assert("bash"@[0] == 'b');
    assert("c"@[0] == 'c');
    assert("cc"@[0] == 'c');
    assert("cc"@[1] == 'c');
    assert("cjs"@[0] == 'c');
    assert("cjs"@[1] == 'j');
    assert("cpp"@[0] == 'c');
    assert("cpp"@[1] == 'p');
    assert("cs"@[0] == 'c');
    assert("cs"@[1] == 's');
    assert("css"@[0] == 'c');
    assert("css"@[1] == 's');
    assert("cts"@[0] == 'c');
    assert("cts"@[1] == 't');
    assert("cxx"@[0] == 'c');
    assert("cxx"@[1] == 'x');
    assert("dart"@[0] == 'd');
    assert("go"@[0] == 'g');
    assert("h"@[0] == 'h');
    assert("hpp"@[0] == 'h');
    assert("hpp"@[1] == 'p');
    assert("hs"@[0] == 'h');
    assert("htm"@[0] == 'h');
    assert("htm"@[1] == 't');
    assert("html"@[0] == 'h');
    assert("java"@[0] == 'j');
    assert("java"@[1] == 'a');
    assert("js"@[0] == 'j');
    assert("json"@[0] == 'j');
    assert("json"@[1] == 's');
    assert("jsx"@[0] == 'j');
    assert("kt"@[0] == 'k');
    assert("kts"@[0] == 'k');
    assert("lua"@[0] == 'l');
    assert("md"@[0] == 'm');
    assert("mjs"@[0] == 'm');
    assert("mjs"@[1] == 'j');
    assert("mts"@[0] == 'm');
    assert("mts"@[1] == 't');
    assert("php"@[0] == 'p');
    assert("php"@[1] == 'h');
    assert("ps1"@[0] == 'p');
    assert("ps1"@[1] == 's');
    assert("py"@[0] == 'p');
    assert("rb"@[0] == 'r');
    assert("rb"@[1] == 'b');
    assert("rs"@[0] == 'r');
    assert("rs"@[1] == 's');
    assert("sass"@[0] == 's');
    assert("sass"@[1] == 'a');
    assert("scss"@[0] == 's');
    assert("scss"@[1] == 'c');
    assert("sh"@[0] == 's');
    assert("sql"@[0] == 's');
    assert("toml"@[0] == 't');
    assert("ts"@[0] == 't');
    assert("tsx"@[0] == 't');
    assert("tsx"@[1] == 's');
    assert("txt"@[0] == 't');
    assert("txt"@[1] == 'x');
    assert("vue"@[0] == 'v');
    assert("xml"@[0] == 'x');
    assert("yaml"@[0] == 'y');
    assert("yml"@[0] == 'y');
    assert("zig"@[0] == 'z');
    assert("zig"@[1] == 'i');
    assert("zsh"@[0] == 'z');
    assert("zsh"@[1] == 's');
    reveal_strlit("C");
    reveal_strlit("C#");
    reveal_strlit("C++");
    reveal_strlit("CSS");
    reveal_strlit("Dart");
    reveal_strlit("Go");
    reveal_strlit("HTML");
    reveal_strlit("Haskell");
    reveal_strlit("JSON");
    reveal_strlit("Java");
    reveal_strlit("JavaScript");
    reveal_strlit("JavaScript (JSX)");
    reveal_strlit("Kotlin");
    reveal_strlit("Lua");
    reveal_strlit("Markdown");
    reveal_strlit("Other");
    reveal_strlit("PHP");
    reveal_strlit("Python");
    reveal_strlit("Ruby");
    reveal_strlit("Rust");
    reveal_strlit("SQL");
    reveal_strlit("Shell Script");
    reveal_strlit("Svelte");
    reveal_strlit("Swift");
    reveal_strlit("TOML");
    reveal_strlit("TypeScript");
    reveal_strlit("TypeScript (TSX)");
    reveal_strlit("Vue");
    reveal_strlit("XML");
    reveal_strlit("YAML");
    reveal_strlit("Zig");
}

/// The file names that decide the language whatever the extension; other
/// names leave it to the extension.
pub proof fn lemma_special_names(ext: Seq<char>)
    ensures
        language_name("Dockerfile"@, ext) == "Dockerfile"@,
        language_name("dockerfile"@, ext) == "Dockerfile"@,
        language_name("Makefile"@, ext) == "Makefile"@,
        language_name("makefile"@, ext) == "Makefile"@,
        language_name("Cargo.toml"@, ext) == "Rust"@,
        language_name("Cargo.lock"@, ext) == "Rust"@,
        language_name("package.json"@, ext) == "JSON"@,
        language_name("tsconfig.json"@, ext) == "JSON"@,
        language_name("main.rs"@, ext) == extension_language(ext),
{
    lemma_texts_differ();
    reveal_strlit("Cargo.lock");
    reveal_strlit("Cargo.toml");
    reveal_strlit("Dockerfile");
    reveal_strlit("Makefile");
    reveal_strlit("dockerfile");
    reveal_strlit("main.rs");
    reveal_strlit("makefile");
    reveal_strlit("package.json");
    reveal_strlit("tsconfig.json");
    assert("Cargo.lock"@.len() == 10);
    assert("Cargo.toml"@.len() == 10);
    assert("Dockerfile"@.len() == 10);
    assert("Makefile"@.len() == 8);
    assert("dockerfile"@.len() == 10);
    assert("main.rs"@.len() == 7);
    assert("makefile"@.len() == 8);
    assert("package.json"@.len() == 12);
    assert("tsconfig.json"@.len() == 13);
    assert("Cargo.lock"@[0] == 'C');
    assert("Cargo.lock"@[6] == 'l');
    assert("Cargo.toml"@[0] == 'C');
    assert("Cargo.toml"@[6] == 't');
    assert("Dockerfile"@[0] == 'D');
    assert("Makefile"@[0] == 'M');
    assert("dockerfile"@[0] == 'd');
    assert("makefile"@[0] == 'm');
    reveal_strlit("Dockerfile");
    reveal_strlit("JSON");
    reveal_strlit("Makefile");
    reveal_strlit("Rust");
}

/// The prefix that opens a line comment, for every language: `#` for
/// Python, shell scripts, Ruby, YAML, TOML, Dockerfiles and Makefiles, `--`
/// for SQL, Lua and Haskell, and `//` for the rest.
pub proof fn lemma_comment_prefix_table()
    ensures
        comment_prefix("Python"@) == "#"@,
        comment_prefix("Shell Script"@) == "#"@,
        comment_prefix("Ruby"@) == "#"@,
        comment_prefix("YAML"@) == "#"@,
        comment_prefix("TOML"@) == "#"@,
        comment_prefix("Dockerfile"@) == "#"@,
        comment_prefix("Makefile"@) == "#"@,
        comment_prefix("SQL"@) == "--"@,
        comment_prefix("Lua"@) == "--"@,
        comment_prefix("Haskell"@) == "--"@,
        comment_prefix("Rust"@) == "//"@,
        comment_prefix("JavaScript"@) == "//"@,
        comment_prefix("TypeScript"@) == "//"@,
        comment_prefix("JavaScript (JSX)"@) == "//"@,
        comment_prefix("TypeScript (TSX)"@) == "//"@,
        comment_prefix("Go"@) == "//"@,
        comment_prefix("C"@) == "//"@,
        comment_prefix("C++"@) == "//"@,
        comment_prefix("Java"@) == "//"@,
        comment_prefix("Kotlin"@) == "//"@,
        comment_prefix("Swift"@) == "//"@,
        comment_prefix("C#"@) == "//"@,
        comment_prefix("Svelte"@) == "//"@,
        comment_prefix("Vue"@) == "//"@,
        comment_prefix("Dart"@) == "//"@,
        comment_prefix("Zig"@) == "//"@,
        comment_prefix("PHP"@) == "//"@,
        comment_prefix("HTML"@) == "//"@,
        comment_prefix("CSS"@) == "//"@,
        comment_prefix("JSON"@) == "//"@,
        comment_prefix("Markdown"@) == "//"@,
        comment_prefix("XML"@) == "//"@,
        comment_prefix("Other"@) == "//"@,
{
    lemma_texts_differ();
    reveal_strlit("C");
    reveal_strlit("C#");
    reveal_strlit("C++");
    reveal_strlit("CSS");
    reveal_strlit("Dart");
    reveal_strlit("Dockerfile");
    reveal_strlit("Go");
    reveal_strlit("HTML");
    reveal_strlit("Haskell");
    reveal_strlit("JSON");
    reveal_strlit("Java");
    reveal_strlit("JavaScript");
    reveal_strlit("JavaScript (JSX)");
    reveal_strlit("Kotlin");
    reveal_strlit("Lua");
    reveal_strlit("Makefile");
    reveal_strlit("Markdown");
    reveal_strlit("Other");
    reveal_strlit("PHP");
    reveal_strlit("Python");
    reveal_strlit("Ruby");
    reveal_strlit("Rust");
    reveal_strlit("SQL");
    reveal_strlit("Shell Script");
    reveal_strlit("Svelte");
    reveal_strlit("Swift");
    reveal_strlit("TOML");
    reveal_strlit("TypeScript");
    reveal_strlit("TypeScript (TSX)");
    reveal_strlit("Vue");
    reveal_strlit("XML");
    reveal_strlit("YAML");
    reveal_strlit("Zig");
    assert("C"@.len() == 1);
    assert("C#"@.len() == 2);
    assert("C++"@.len() == 3);
    assert("CSS"@.len() == 3);
    assert("Dart"@.len() == 4);
    assert("Dockerfile"@.len() == 10);
    assert("Go"@.len() == 2);
    assert("HTML"@.len() == 4);
    assert("Haskell"@.len() == 7);
    assert("JSON"@.len() == 4);
    assert("Java"@.len() == 4);
    assert("JavaScript"@.len() == 10);
    assert("JavaScript (JSX)"@.len() == 16);
    assert("Kotlin"@.len() == 6);
    assert("Lua"@.len() == 3);
    assert("Makefile"@.len() == 8);
    assert("Markdown"@.len() == 8);
    assert("Other"@.len() == 5);
    assert("PHP"@.len() == 3);
    assert("Python"@.len() == 6);
    assert("Ruby"@.len() == 4);
    assert("Rust"@.len() == 4);
    assert("SQL"@.len() == 3);
    assert("Shell Script"@.len() == 12);
    assert("Svelte"@.len() == 6);
    assert("Swift"@.len() == 5);
    assert("TOML"@.len() == 4);
    assert("TypeScript"@.len() == 10);
    assert("TypeScript (TSX)"@.len() == 16);
    assert("Vue"@.len() == 3);
    assert("XML"@.len() == 3);
    assert("YAML"@.len() == 4);
    assert("Zig"@.len() == 3);
    assert("C++"@[0] == 'C');
    assert("CSS"@[0] == 'C');
    assert("Dart"@[0] == 'D');
    assert("Dockerfile"@[0] == 'D');
    assert("HTML"@[0] == 'H');
    assert("JSON"@[0] == 'J');
    assert("Java"@[0] == 'J');
    assert("JavaScript"@[0] == 'J');
    assert("Kotlin"@[0] == 'K');
    assert("Lua"@[0] == 'L');
    assert("Makefile"@[2] == 'k');
    assert("Markdown"@[2] == 'r');
    assert("PHP"@[0] == 'P');
    assert("Python"@[0] == 'P');
    assert("Ruby"@[0] == 'R');
    assert("Ruby"@[2] == 'b');
    assert("Rust"@[0] == 'R');
    assert("Rust"@[2] == 's');
    assert("SQL"@[0] == 'S');
    assert("Svelte"@[0] == 'S');
    assert("TOML"@[0] == 'T');
    assert("TypeScript"@[0] == 'T');
    assert("Vue"@[0] == 'V');
    assert("XML"@[0] == 'X');
    assert("YAML"@[0] == 'Y');
    assert("Zig"@[0] == 'Z');
    reveal_strlit("#");
    reveal_strlit("--");
    reveal_strlit("//");
}

} // verus!
