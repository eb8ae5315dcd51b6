use glob_import::codegen::binding_name;
use glob_import::strnum::{
    join_pattern, normalize_specifier, parent_dir, rebase_filepath, str_eq, str_lex_le,
    strip_base, usize_to_string,
};

#[test]
fn decimal_rendering() {
    assert_eq!(usize_to_string(0), "0");
    assert_eq!(usize_to_string(7), "7");
    assert_eq!(usize_to_string(10), "10");
    assert_eq!(usize_to_string(120), "120");
    assert_eq!(usize_to_string(98765), "98765");
}

#[test]
fn binding_names() {
    assert_eq!(binding_name(0, 0), "__glob_0_0");
    assert_eq!(binding_name(0, 1), "__glob_0_1");
    assert_eq!(binding_name(12, 3), "__glob_12_3");
    assert_eq!(binding_name(1, 11), "__glob_1_11");
    assert_ne!(binding_name(11, 1), binding_name(1, 11));
}

#[test]
fn specifier_normalization() {
    assert_eq!(normalize_specifier("a.js"), "./a.js");
    assert_eq!(normalize_specifier("./a.js"), "./a.js");
    assert_eq!(normalize_specifier(".hidden/x.js"), ".hidden/x.js");
    assert_eq!(normalize_specifier("sub\\x.js"), "./sub/x.js");
    assert_eq!(normalize_specifier(""), "./");
}

#[test]
fn parent_directories() {
    assert_eq!(parent_dir("/cwd/src/a.js"), "/cwd/src");
    assert_eq!(parent_dir("./mod.js"), ".");
    assert_eq!(parent_dir("a.js"), "");
}

#[test]
fn pattern_joining() {
    assert_eq!(join_pattern("/a", "b/*.js"), "/a/b/*.js");
    assert_eq!(join_pattern(".", "src/*.rs"), "./src/*.rs");
    assert_eq!(join_pattern(".", "/abs/*.js"), "/abs/*.js");
    assert_eq!(join_pattern("", "x.js"), "x.js");
}

#[test]
fn base_stripping() {
    assert_eq!(strip_base("./src/x.js", "."), "src/x.js");
    assert_eq!(strip_base("/a/b/c.js", "/a/b"), "c.js");
    assert_eq!(strip_base("elsewhere/x.js", "/a"), "elsewhere/x.js");
    assert_eq!(strip_base("x.js", ""), "x.js");
}

#[test]
fn filepath_rebasing() {
    assert_eq!(
        rebase_filepath("/home/user/project/src/mod.js", "/home/user/project"),
        "/cwd/src/mod.js"
    );
    assert_eq!(rebase_filepath("/elsewhere/mod.js", "/home/user/project"), "/elsewhere/mod.js");
    assert_eq!(rebase_filepath("src/mod.js", ""), "src/mod.js");
}

#[test]
fn lexicographic_order() {
    assert!(str_lex_le("a", "b"));
    assert!(!str_lex_le("b", "a"));
    assert!(str_lex_le("a", "ab"));
    assert!(!str_lex_le("ab", "a"));
    assert!(str_lex_le("", ""));
    assert!(str_lex_le("a.js", "b.js"));
}

#[test]
fn string_equality() {
    assert!(str_eq("glob", "glob"));
    assert!(!str_eq("glob", "glo"));
    assert!(!str_eq("glob", "glib"));
    assert!(str_eq("", ""));
}
