use hbuild::{basename, ends_with_str, is_git_source, is_header_path, parse_mm_deps,
    replace_extension, rfind_char, split_ws, starts_with_str, str_eq};

#[test]
fn whitespace_split() {
    assert_eq!(split_ws("a bb  c"), vec!["a", "bb", "c"]);
    assert_eq!(split_ws("  lead and trail  "), vec!["lead", "and", "trail"]);
    assert_eq!(split_ws("tabs\tand\nnewlines\r\n"), vec!["tabs", "and", "newlines"]);
    assert_eq!(split_ws(""), Vec::<String>::new());
    assert_eq!(split_ws("   "), Vec::<String>::new());
    assert_eq!(split_ws("one"), vec!["one"]);
}

#[test]
fn dependency_listing_parses_after_the_colon() {
    let out = "foo.o: foo.c inc/bar.h \\\n baz.h\n";
    assert_eq!(parse_mm_deps(out), vec!["foo.c", "inc/bar.h", "\\", "baz.h"]);
}

#[test]
fn dependency_listing_without_colon_is_empty() {
    assert_eq!(parse_mm_deps("no colon here"), Vec::<String>::new());
}

#[test]
fn dependency_listing_stops_at_a_second_colon() {
    assert_eq!(parse_mm_deps("a.o: a.c b.h: extra"), vec!["a.c", "b.h"]);
}

#[test]
fn rfind_finds_the_last_occurrence() {
    assert_eq!(rfind_char("a/b/c", '/'), Some(3));
    assert_eq!(rfind_char("abc", '/'), None);
    assert_eq!(rfind_char("a.b.c", '.'), Some(3));
}

#[test]
fn basenames() {
    assert_eq!(basename("src/foo.c"), "foo.c");
    assert_eq!(basename("foo.c"), "foo.c");
    assert_eq!(basename("a/b/"), "");
}

#[test]
fn extension_replacement() {
    assert_eq!(replace_extension("foo.c", ".o"), "foo.o");
    assert_eq!(replace_extension("foo", ".o"), "foo.o");
    assert_eq!(replace_extension("a.dir/foo", ".o"), "a.dir/foo.o");
    assert_eq!(replace_extension(".hidden", ".o"), ".hidden.o");
}

#[test]
fn header_detection() {
    assert!(is_header_path("inc/foo.h"));
    assert!(is_header_path("inc/foo.hpp"));
    assert!(!is_header_path("inc/foo.c"));
    assert!(!is_header_path("inc/foo"));
    assert!(!is_header_path("dir.h/foo"));
    assert!(!is_header_path(".h"));
}

#[test]
fn string_equality() {
    assert!(str_eq("abc", "abc"));
    assert!(!str_eq("abc", "abd"));
    assert!(!str_eq("abc", "ab"));
    assert!(str_eq("", ""));
}

#[test]
fn git_source_detection() {
    assert!(is_git_source("https://example.com/repo.git"));
    assert!(is_git_source("git://example.com/repo"));
    assert!(!is_git_source("1.2.3"));
    assert!(!is_git_source("https://example.com/repo"));
    assert!(!is_git_source(".git"));
}

#[test]
fn prefix_and_suffix_checks() {
    assert!(starts_with_str("abcdef", "abc"));
    assert!(!starts_with_str("ab", "abc"));
    assert!(!starts_with_str("abcdef", "abd"));
    assert!(starts_with_str("abc", ""));
    assert!(ends_with_str("abcdef", "def"));
    assert!(!ends_with_str("ef", "def"));
    assert!(!ends_with_str("abcdef", "dee"));
    assert!(ends_with_str("abc", ""));
}
