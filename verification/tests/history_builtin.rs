use shell_core::builtin::{generate_output, history_action, history_output, HistoryAction, Surroundings};
use shell_core::history::History;

#[test]
fn test_generate_output_no_args() {
    let mut history = History::new();
    history.append("echo hello");
    history.append("pwd");
    history.append("ls");

    let output = history_output(&[], &history);
    let output_str = String::from_utf8(output).unwrap();

    assert_eq!(output_str, "1  echo hello\n2  pwd\n3  ls\n");
}

#[test]
fn test_generate_output_with_limit() {
    let mut history = History::new();
    history.append("echo hello");
    history.append("pwd");
    history.append("ls");

    let output = history_output(&["2"], &history);
    let output_str = String::from_utf8(output).unwrap();

    assert_eq!(output_str, "2  pwd\n3  ls\n");
}

#[test]
fn test_generate_output_invalid_limit() {
    let mut history = History::new();
    history.append("echo hello");

    let output = history_output(&["not_a_number"], &history);
    assert!(output.is_empty());
}

#[test]
fn test_run_r_flag_without_path() {
    let mut history = History::new();
    history.append("echo hello");

    let action = history_action(&["-r"], &history);

    assert_eq!(action, HistoryAction::Show(Vec::new()));
    assert_eq!(history.len(), 1);
}

#[test]
fn test_read_history_from_file() {
    let mut history = History::new();
    let text = "echo first\necho second\npwd\n";

    let action = history_action(&["-r", "/tmp/some_history"], &history);
    assert_eq!(action, HistoryAction::Read("/tmp/some_history".to_string()));
    history.read_from_text(text);

    assert_eq!(history.len(), 3);
    let output = history_output(&[], &history);
    let output_str = String::from_utf8(output).unwrap();
    assert_eq!(output_str, "1  echo first\n2  echo second\n3  pwd\n");
}

#[test]
fn flags_are_taken_in_the_order_r_w_a() {
    let history = History::new();
    assert_eq!(history_action(&["-w", "f"], &history), HistoryAction::Write("f".to_string()));
    assert_eq!(history_action(&["-a", "f"], &history), HistoryAction::Append("f".to_string()));
    assert_eq!(history_action(&["-a", "x", "-w", "y", "-r", "z"], &history), HistoryAction::Read("z".to_string()));
    assert_eq!(history_action(&["-a", "x", "-w", "y"], &history), HistoryAction::Write("y".to_string()));
    assert_eq!(history_action(&["-r", "-w", "y"], &history), HistoryAction::Read("-w".to_string()));
}

#[test]
fn limit_is_trimmed_and_read_as_an_unsigned_number() {
    let mut history = History::new();
    history.append("a");
    history.append("b");
    assert_eq!(history_output(&[" 1 "], &history), b"2  b\n".to_vec());
    assert_eq!(history_output(&["+1"], &history), b"2  b\n".to_vec());
    assert_eq!(history_output(&["0"], &history), b"".to_vec());
    assert_eq!(history_output(&["-1"], &history), b"".to_vec());
    assert_eq!(history_output(&["1 2"], &history), b"".to_vec());
    assert_eq!(history_output(&["99999999999999999999999999"], &history), b"".to_vec());
    assert_eq!(history_output(&["18446744073709551615"], &history), b"1  a\n2  b\n".to_vec());
    assert_eq!(history_output(&["2", "junk"], &history), b"1  a\n2  b\n".to_vec());
}

#[test]
fn history_builtin_lists_through_generate_output() {
    let mut history = History::new();
    history.append("x");
    let around = Surroundings { current_directory: None, found_executable: None };
    assert_eq!(generate_output("history", &[], &history, &around), Ok(b"1  x\n".to_vec()));
}

/// Carries out a `history` command on a file held in memory.
fn run(args: &[&str], history: &mut History, file: &mut String) {
    match history_action(args, history) {
        HistoryAction::Read(_) => history.read_from_text(file),
        HistoryAction::Write(_) => {
            *file = history.text_to_write();
            history.mark_saved();
        }
        HistoryAction::Append(_) => {
            file.push_str(&history.text_to_append());
            history.mark_saved();
        }
        HistoryAction::Show(_) => {}
    }
}

fn three_commands() -> History {
    let mut history = History::new();
    history.append("ls");
    history.append("cat README.md");
    history.append("pwd");
    history
}

#[test]
fn test_write_history_to_file() {
    let mut history = three_commands();
    let mut file = String::new();

    run(&["-w", "history.txt"], &mut history, &mut file);

    assert_eq!(file, "ls\ncat README.md\npwd\n");
}

#[test]
fn test_write_empty_history_to_file() {
    let mut history = History::new();
    let mut file = String::from("left over");

    run(&["-w", "history.txt"], &mut history, &mut file);

    assert_eq!(file, "");
}

#[test]
fn test_append_history_to_file() {
    let mut history = three_commands();
    let mut file = String::new();

    run(&["-a", "history.txt"], &mut history, &mut file);

    assert_eq!(file, "ls\ncat README.md\npwd\n");
}

#[test]
fn test_multiple_calls_to_append_history() {
    let mut history = three_commands();
    let mut file = String::new();

    for _ in 1..5 {
        run(&["-a", "history.txt"], &mut history, &mut file);
    }

    assert_eq!(file, "ls\ncat README.md\npwd\n");
}

#[test]
fn test_append_empty_history_to_file() {
    let mut history = History::new();
    let mut file = String::new();

    run(&["-a", "history.txt"], &mut history, &mut file);

    assert_eq!(file, "");
}

#[test]
fn test_append_empty_history_to_file_after_written_to_file() {
    let mut history = three_commands();
    let mut file = String::new();

    run(&["-w", "history.txt"], &mut history, &mut file);
    assert_eq!(file, "ls\ncat README.md\npwd\n");

    history.append("echo abc");
    history.append("echo def");

    run(&["-a", "history.txt"], &mut history, &mut file);
    assert_eq!(file, "ls\ncat README.md\npwd\necho abc\necho def\n");
}

#[test]
fn test_append_empty_history_to_file_after_appended_to_file() {
    let mut history = three_commands();
    let mut file = String::new();

    run(&["-a", "history.txt"], &mut history, &mut file);
    assert_eq!(file, "ls\ncat README.md\npwd\n");

    history.append("echo abc");
    history.append("echo def");

    run(&["-a", "history.txt"], &mut history, &mut file);
    assert_eq!(file, "ls\ncat README.md\npwd\necho abc\necho def\n");
}
