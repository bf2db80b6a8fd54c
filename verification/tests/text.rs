use cdm_linker::path::{path_extension, path_file_name, path_join, path_with_extension};
use cdm_linker::string_utils::Indent;
use cdm_linker::text::{str_eq, str_eq_ignore_ascii_case};

#[test]
fn indent_lines_prefixes_every_line() {
    assert_eq!("a\nb".indent_lines(2), "  a\n  b");
    assert_eq!("error: x\nnote: y\n".indent_lines(4), "    error: x\n    note: y");
}

#[test]
fn indent_lines_drops_carriage_return_before_newline() {
    assert_eq!("a\r\nb\r\n".indent_lines(1), " a\n b");
    assert_eq!("a\r".indent_lines(1), " a\r");
}

#[test]
fn indent_lines_edge_cases() {
    assert_eq!("".indent_lines(3), "");
    assert_eq!("\n".indent_lines(2), "  ");
    assert_eq!("a\n\nb".indent_lines(1), " a\n \n b");
    assert_eq!("x".indent_lines(0), "x");
}

#[test]
fn string_comparisons() {
    assert!(str_eq("abc", "abc"));
    assert!(!str_eq("abc", "abd"));
    assert!(!str_eq("abc", "ab"));
    assert!(str_eq_ignore_ascii_case("RLib", "rlib"));
    assert!(!str_eq_ignore_ascii_case("rlibx", "rlib"));
    assert!(!str_eq_ignore_ascii_case("é", "É"));
}

#[test]
fn file_name_of_paths() {
    assert_eq!(path_file_name("foo/bar.txt").as_deref(), Some("bar.txt"));
    assert_eq!(path_file_name("foo/bar/").as_deref(), Some("bar"));
    assert_eq!(path_file_name("foo/bar/.").as_deref(), Some("bar"));
    assert_eq!(path_file_name("a").as_deref(), Some("a"));
    assert_eq!(path_file_name("foo/.."), None);
    assert_eq!(path_file_name("/"), None);
    assert_eq!(path_file_name(""), None);
    assert_eq!(path_file_name("."), None);
}

#[test]
fn extension_of_paths() {
    assert_eq!(path_extension("x.tar.gz").as_deref(), Some("gz"));
    assert_eq!(path_extension("dir.d/file").as_deref(), None);
    assert_eq!(path_extension(".bashrc"), None);
    assert_eq!(path_extension("foo.").as_deref(), Some(""));
    assert_eq!(path_extension("lib/core.rlib/").as_deref(), Some("rlib"));
    assert_eq!(path_extension(".."), None);
}

#[test]
fn with_extension_of_paths() {
    assert_eq!(path_with_extension("out/prog.img", "cdm.build"), "out/prog.cdm.build");
    assert_eq!(path_with_extension("out/prog", "cdm.build"), "out/prog.cdm.build");
    assert_eq!(path_with_extension("out/.hidden", "x"), "out/.hidden.x");
    assert_eq!(path_with_extension("dir/", "x"), "dir.x");
    assert_eq!(path_with_extension("a.b", ""), "a");
    assert_eq!(path_with_extension("/", "x"), "/");
}

#[test]
fn join_paths() {
    assert_eq!(path_join("a", "b"), "a/b");
    assert_eq!(path_join("a/", "b"), "a/b");
    assert_eq!(path_join("", "b"), "b");
    assert_eq!(path_join("a", "/b"), "/b");
}

#[test]
fn indent_by_zero_keeps_text() {
    assert_eq!("ab\ncd".indent_lines(0), "ab\ncd");
    assert_eq!("\n\nx".indent_lines(0), "\n\nx");
}
