//! Tests of the display-path cleanup.

use pycache_cleaner::pathstr::remove_weird_prefix_on_pathstr;

#[test]
fn strips_extended_path_marker() {
    assert_eq!(remove_weird_prefix_on_pathstr("\\\\?\\C:\\work"), "C:\\work");
}

#[test]
fn plain_path_is_unchanged() {
    assert_eq!(remove_weird_prefix_on_pathstr("/home/user/project"), "/home/user/project");
}

#[test]
fn short_backslash_run_is_unchanged() {
    assert_eq!(remove_weird_prefix_on_pathstr("\\\\?"), "\\\\?");
    assert_eq!(remove_weird_prefix_on_pathstr(""), "");
}

#[test]
fn only_one_marker_is_stripped() {
    assert_eq!(remove_weird_prefix_on_pathstr("\\\\?\\\\\\?\\x"), "\\\\?\\x");
}

#[test]
fn marker_in_the_middle_is_kept() {
    assert_eq!(remove_weird_prefix_on_pathstr("a\\\\?\\b"), "a\\\\?\\b");
}
