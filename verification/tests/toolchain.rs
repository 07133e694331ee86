//! Architecture extraction from toolchain identifiers, and the text
//! primitives it rests on.

use rustc_llvm_proxy::path::{extract_arch, file_name_of, parent_dir_of, path_join};
use rustc_llvm_proxy::text::{
    find_char, find_line_with_prefix, join_hyphen, rfind_char, split_str, str_eq, str_has_prefix,
    strip_prefixes, trim,
};

#[test]
fn arch_of_dated_nightly() {
    assert_eq!(
        extract_arch("nightly-2018-11-30-x86_64-unknown-linux-gnu"),
        "x86_64-unknown-linux-gnu"
    );
}

#[test]
fn arch_of_plain_stable() {
    assert_eq!(extract_arch("stable-x86_64-apple-darwin"), "x86_64-apple-darwin");
}

#[test]
fn arch_of_versioned_toolchain() {
    assert_eq!(extract_arch("1.31.0-x86_64-pc-windows-msvc"), "x86_64-pc-windows-msvc");
}

#[test]
fn arch_of_channel_alone_is_empty() {
    assert_eq!(extract_arch("stable"), "");
}

#[test]
fn arch_extraction_skips_every_leading_numeric_segment() {
    assert_eq!(
        extract_arch("nightly-1.52.0-2021-03-21-aarch64-unknown-linux-gnu"),
        "aarch64-unknown-linux-gnu"
    );
}

#[test]
fn arch_extraction_only_skips_leading_numeric_segments() {
    // A digit-led segment inside the triple is kept once the triple began.
    assert_eq!(extract_arch("stable-armv7-4-linux"), "armv7-4-linux");
}

#[test]
fn arch_extraction_keeps_empty_segments() {
    // Only digit-led segments are skipped after the channel; an empty
    // segment already belongs to the remainder.
    assert_eq!(extract_arch("nightly--x86_64-unknown-linux-gnu"), "-x86_64-unknown-linux-gnu");
}

#[test]
fn split_keeps_empty_segments() {
    let parts = split_str("a::b:", ':');
    assert_eq!(parts, vec!["a".to_owned(), "".to_owned(), "b".to_owned(), "".to_owned()]);
}

#[test]
fn split_without_separator_is_whole() {
    assert_eq!(split_str("alone", ':'), vec!["alone".to_owned()]);
}

#[test]
fn join_undoes_split() {
    let parts = split_str("x86_64-unknown-linux-gnu", '-');
    assert_eq!(join_hyphen(&parts), "x86_64-unknown-linux-gnu");
}

#[test]
fn find_char_positions() {
    assert_eq!(find_char("abc-def", '-'), 3);
    assert_eq!(find_char("abc", '-'), 3);
    assert_eq!(rfind_char("a/b/c", '/'), Some(3));
    assert_eq!(rfind_char("abc", '/'), None);
}

#[test]
fn trim_strips_ascii_whitespace() {
    assert_eq!(trim("  /usr/lib \n"), "/usr/lib");
    assert_eq!(trim("\t\r\n"), "");
    assert_eq!(trim("plain"), "plain");
}

#[test]
fn prefix_handling() {
    assert!(str_has_prefix("host: x86_64", "host"));
    assert!(!str_has_prefix("ho", "host"));
    assert_eq!(strip_prefixes("host:host: triple", "host:"), " triple");
    assert_eq!(strip_prefixes("triple", "host:"), "triple");
}

#[test]
fn string_equality_is_exact() {
    assert!(str_eq("x86_64", "x86_64"));
    assert!(!str_eq("x86_64", "x86_6"));
    assert!(!str_eq("", "a"));
}

#[test]
fn line_lookup_takes_the_first_match() {
    let lines = split_str("release: 1.31.0\nhost: x86_64-unknown-linux-gnu\nhost: other", '\n');
    assert_eq!(
        find_line_with_prefix(&lines, "host"),
        Some("host: x86_64-unknown-linux-gnu".to_owned())
    );
    assert_eq!(find_line_with_prefix(&lines, "commit"), None);
}

#[test]
fn path_segments() {
    assert_eq!(parent_dir_of("/usr/local/bin"), "/usr/local");
    assert_eq!(parent_dir_of("bin"), "");
    assert_eq!(file_name_of("/a/b"), Some("b".to_owned()));
    assert_eq!(file_name_of("/a/b/"), None);
    assert_eq!(file_name_of(""), None);
    assert_eq!(path_join("/a", "b"), "/a/b");
    assert_eq!(path_join("", "b"), "b");
}
