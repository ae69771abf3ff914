use shell_core::cd::{determine_destination, failure_message};
use std::path::PathBuf;

const HOME: &str = "/home/tester";
const CURRENT: &str = "/work/project/shell";

fn go(args: &[&str]) -> PathBuf {
    PathBuf::from(determine_destination(args, HOME, CURRENT))
}

#[test]
fn test_cd_no_args_goes_to_home() {
    assert_eq!(go(&[]), PathBuf::from(HOME));
}

#[test]
fn test_cd_current_directory() {
    assert_eq!(go(&["."]), PathBuf::from(CURRENT));
}

#[test]
fn test_cd_parent_directory() {
    let mut expected = PathBuf::from(CURRENT);
    expected.pop();
    assert_eq!(go(&[".."]), expected);
}

#[test]
fn test_cd_absolute_path() {
    assert_eq!(go(&["/usr/bin"]), PathBuf::from("/usr/bin"));
}

#[test]
fn test_cd_absolute_root() {
    assert_eq!(go(&["/"]), PathBuf::from("/"));
}

#[test]
fn test_cd_tilde_expansion() {
    assert_eq!(go(&["~"]), PathBuf::from(HOME));
}

#[test]
fn test_cd_tilde_with_path() {
    let mut expected = PathBuf::from(HOME);
    expected.push("Documents");
    assert_eq!(go(&["~/Documents"]), expected);
}

#[test]
fn test_cd_relative_path() {
    let mut expected = PathBuf::from(CURRENT);
    expected.push("child_directory");
    assert_eq!(go(&["child_directory"]), expected);
}

#[test]
fn test_cd_complex_relative_path() {
    let mut expected = PathBuf::from(CURRENT);
    expected.push("src");
    expected.pop();
    expected.push("target");
    assert_eq!(go(&["src/../target"]), expected);
}

#[test]
fn test_cd_multiple_parent_directories() {
    let mut expected = PathBuf::from(CURRENT);
    expected.pop();
    expected.pop();
    assert_eq!(go(&["../.."]), expected);
}

#[test]
fn test_cd_with_current_and_parent_mix() {
    let mut expected = PathBuf::from(CURRENT);
    expected.push("src");
    expected.pop();
    expected.push("target");
    expected.push("debug");
    assert_eq!(go(&["src/../target/./debug"]), expected);
}

#[test]
fn test_cd_empty_string_components() {
    assert_eq!(go(&["//usr//bin//"]), PathBuf::from("/usr/bin"));
}

#[test]
fn test_cd_whitespace_trimming() {
    assert_eq!(go(&["  /usr/bin  "]), PathBuf::from("/usr/bin"));
}

#[test]
fn destination_is_told_as_text() {
    assert_eq!(determine_destination(&["src"], HOME, CURRENT), "/work/project/shell/src");
    assert_eq!(determine_destination(&[".."], HOME, CURRENT), "/work/project");
    assert_eq!(determine_destination(&["../../../.."], HOME, CURRENT), "/");
    assert_eq!(determine_destination(&["a/~"], HOME, CURRENT), "/work/project/shell/a/~");
    assert_eq!(determine_destination(&["...", "ignored"], HOME, CURRENT), "/work/project/shell/...");
    assert_eq!(determine_destination(&[""], HOME, CURRENT), "/");
}

#[test]
fn failure_names_the_destination() {
    assert_eq!(failure_message("/no/such"), "cd: /no/such: No such file or directory");
}
