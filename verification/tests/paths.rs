//! Prefixes, segments and joined paths.

use roxy::errors::AppError;
use roxy::paths::{
    derive_gate_prefix, merge_paths, normalize_base_path, normalize_prefix, prefix_matcher,
    sanitize_route_segment,
};

#[test]
fn runs_of_foreign_characters_become_one_dash() {
    assert_eq!(sanitize_route_segment("eth sepolia!"), "eth-sepolia");
    assert_eq!(sanitize_route_segment("a  \u{e9}/b"), "a-b");
    assert_eq!(sanitize_route_segment("a - b"), "a-b");
    assert_eq!(sanitize_route_segment("a- -b"), "a-b");
    assert_eq!(sanitize_route_segment("a--b"), "a-b");
    assert_eq!(sanitize_route_segment("a_ _b"), "a_-_b");
    assert_eq!(sanitize_route_segment("Gnosis_2"), "Gnosis_2");
}

#[test]
fn ends_of_a_name_do_not_count() {
    assert_eq!(sanitize_route_segment(" \u{a0}\tname\n"), "name");
    assert_eq!(sanitize_route_segment("--name--"), "name");
    assert_eq!(sanitize_route_segment("!-! name"), "name");
    assert_eq!(sanitize_route_segment("  !! "), "");
}

#[test]
fn segment_is_its_own_segment() {
    let once = sanitize_route_segment("..a?b..");
    assert_eq!(once, "a-b");
    assert_eq!(sanitize_route_segment(&once), once);
}

#[test]
fn names_are_mounted_under_the_gate() {
    assert_eq!(derive_gate_prefix("gnosis").unwrap(), "/gate/gnosis");
    assert_eq!(derive_gate_prefix("???").unwrap(), "/gate");
}

#[test]
fn prefixes_are_normalised() {
    assert_eq!(normalize_prefix("a").unwrap(), "/a");
    assert_eq!(normalize_prefix("/a//").unwrap(), "/a");
    assert_eq!(normalize_prefix("/").unwrap(), "/");
    assert_eq!(normalize_prefix("//").unwrap(), "");
    assert_eq!(
        normalize_prefix("").unwrap_err(),
        AppError::Config("route prefix cannot be empty".to_string())
    );
}

#[test]
fn base_paths_are_normalised() {
    assert_eq!(normalize_base_path(""), "/");
    assert_eq!(normalize_base_path("/"), "/");
    assert_eq!(normalize_base_path("/base//"), "/base");
    assert_eq!(normalize_base_path("//"), "");
}

#[test]
fn matchers_end_in_one_slash() {
    assert_eq!(prefix_matcher("/"), "/");
    assert_eq!(prefix_matcher("/gate/a"), "/gate/a/");
    assert_eq!(prefix_matcher("/gate/a//"), "/gate/a/");
}

#[test]
fn paths_are_joined_with_one_slash() {
    assert_eq!(merge_paths("", ""), "/");
    assert_eq!(merge_paths("/base", ""), "/base");
    assert_eq!(merge_paths("/", "/rpc"), "/rpc");
    assert_eq!(merge_paths("/base/", "//rpc"), "/base/rpc");
    assert_eq!(merge_paths("/base", "/"), "/base");
    assert_eq!(merge_paths("/", "/"), "/");
}
