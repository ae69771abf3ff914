use shell_core::args::read_option;

#[test]
fn test_read_option_no_option() {
    let result = read_option("w", &vec!["a", "b", "c"]);
    assert_eq!(result, None);
}

#[test]
fn test_read_option_no_value() {
    let result = read_option("w", &vec!["a", "-w"]);
    assert_eq!(result, None);
}

#[test]
fn test_read_option() {
    let result = read_option("w", &vec!["-w", "w_value"]);
    assert_eq!(result, Some("w_value".to_owned()));
}

#[test]
fn only_the_first_occurrence_of_the_flag_counts() {
    assert_eq!(read_option("w", &vec!["-w", "one", "-w", "two"]), Some("one".to_owned()));
    assert_eq!(read_option("w", &vec!["x", "-w", "-w"]), Some("-w".to_owned()));
    assert_eq!(read_option("w", &vec!["-ww", "x"]), None);
    assert_eq!(read_option("long", &vec!["-long", "v"]), Some("v".to_owned()));
    assert_eq!(read_option("w", &vec![]), None);
}
