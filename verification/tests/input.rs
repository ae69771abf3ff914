use shell_core::autocompletion::AutoCompletion;
use shell_core::history::History;
use shell_core::input::{
    clear_line, display_matches_and_reprompt, handle_backspace, handle_history_down,
    handle_history_up, handle_multiple_completions, handle_regular_char, handle_single_completion,
    handle_tab_completion, process_completion_matches, raw_local_modes, read_arrow_sequence,
    ArrowKey, EscapeState,
    LineEditor, Outcome, BACKSPACE, BACKSPACE_ERASE_SEQUENCE, BEEP, CARRIAGE_RETURN, CTRL_C,
    DELETE, ESC, NEWLINE, PROMPT, RAW_MIN_BYTES, RAW_TIMEOUT, TAB,
};

fn create_test_autocomplete() -> AutoCompletion<impl Fn(&str) -> Vec<String>> {
    AutoCompletion::new(vec!["echo", "exit", "export", "cd", "cat", "cargo"])
}

#[test]
fn test_handle_single_completion() {
    let mut input = String::from("ec");
    let completion = "echo";

    let echo = handle_single_completion(&mut input, "ec", completion);
    assert_eq!(echo, "ho ");
    assert_eq!(input, "echo ");
}

#[test]
fn test_handle_single_completion_no_extension() {
    let mut input = String::from("echo");
    let completion = "echo";

    let echo = handle_single_completion(&mut input, "echo", completion);
    assert_eq!(echo, "");
    assert_eq!(input, "echo"); // Should remain unchanged
}

#[test]
fn test_process_completion_matches_no_matches() {
    let mut input = String::from("xyz");
    let matches = Vec::new();
    let mut last_tab_input = None;

    let echo = process_completion_matches(&mut input, "xyz", &matches, &mut last_tab_input);
    assert_eq!(echo, "\x07");
    assert_eq!(input, "xyz");
}

#[test]
fn test_process_completion_matches_single_match() {
    let mut input = String::from("ec");
    let matches = vec!["echo".to_string()];
    let mut last_tab_input = None;

    let echo = process_completion_matches(&mut input, "ec", &matches, &mut last_tab_input);
    assert_eq!(echo, "ho ");
    assert_eq!(input, "echo ");
}

#[test]
fn test_handle_backspace_with_content() {
    let mut input = String::from("hello");

    let echo = handle_backspace(&mut input);
    assert_eq!(echo, "\x08 \x08");
    assert_eq!(input, "hell");
}

#[test]
fn test_handle_backspace_empty_input() {
    let mut input = String::new();

    let echo = handle_backspace(&mut input);
    assert_eq!(echo, "");
    assert_eq!(input, ""); // Should remain empty
}

#[test]
fn test_handle_regular_char() {
    let mut input = String::from("hell");

    let echo = handle_regular_char(&mut input, 'o');
    assert_eq!(echo, "o");
    assert_eq!(input, "hello");
}

#[test]
fn test_handle_tab_completion_no_words() {
    let mut input = String::new();
    let autocomplete = create_test_autocomplete();
    let mut last_tab_input = None;

    let echo = handle_tab_completion(&mut input, &autocomplete, &mut last_tab_input);
    assert_eq!(echo, "");
    assert_eq!(input, ""); // Should remain empty when no words to complete
}

#[test]
fn test_handle_tab_completion_with_partial_word() {
    let mut input = String::from("ec");
    let autocomplete = create_test_autocomplete();
    let mut last_tab_input = None;

    let echo = handle_tab_completion(&mut input, &autocomplete, &mut last_tab_input);
    assert_eq!(echo, "ho ");
    assert_eq!(input, "echo "); // Should complete to "echo"
}

#[test]
fn test_handle_tab_completion_with_multiple_words() {
    let mut input = String::from("echo hello ec");
    let autocomplete = create_test_autocomplete();
    let mut last_tab_input = None;

    let echo = handle_tab_completion(&mut input, &autocomplete, &mut last_tab_input);
    assert_eq!(echo, "ho ");
    assert_eq!(input, "echo hello echo "); // Should complete the last word
}

#[test]
fn test_constants() {
    assert_eq!(BACKSPACE_ERASE_SEQUENCE, "\x08 \x08");
    assert_eq!(PROMPT, "$ ");
    assert_eq!(NEWLINE, '\n');
    assert_eq!(CARRIAGE_RETURN, '\r');
    assert_eq!(TAB, '\t');
    assert_eq!(BACKSPACE, '\u{7f}');
    assert_eq!(DELETE, '\u{0008}');
    assert_eq!(CTRL_C, '\u{0003}');
    assert_eq!(BEEP, '\x07');
    assert_eq!(ESC, '\x1b');
}

#[test]
fn test_multiple_completions_with_common_prefix() {
    let mut input = String::from("e");
    let matches = vec!["echo".to_string(), "exit".to_string(), "export".to_string()];
    let mut last_tab_input = None;

    let echo = handle_multiple_completions(&mut input, "e", &matches, &mut last_tab_input);
    assert_eq!(echo, "\x07");
    assert_eq!(input, "e"); // Should remain "e" since that's the only common prefix
}

#[test]
fn test_multiple_completions_extending_prefix() {
    let mut input = String::from("ex");
    let matches = vec!["exit".to_string(), "export".to_string()];
    let mut last_tab_input = None;

    let echo = handle_multiple_completions(&mut input, "ex", &matches, &mut last_tab_input);
    assert_eq!(echo, "\x07");
    // Should extend to common prefix "ex" (no further extension possible)
    assert_eq!(input, "ex");
}

#[test]
fn test_pressing_tab_twice_with_multiple_completions() {
    let mut input = String::from("e");
    let matches = vec!["echo".to_string(), "exit".to_string(), "export".to_string()];
    let mut last_tab_input = None;

    // First tab press - should set last_tab_input since no common prefix extension
    let echo = handle_multiple_completions(&mut input, "e", &matches, &mut last_tab_input);
    assert_eq!(echo, "\x07");
    assert_eq!(input, "e");
    assert_eq!(last_tab_input, Some(String::from("e")));

    // Second tab press (consecutive) - should trigger display of matches and clear last_tab_input
    let echo = handle_multiple_completions(&mut input, "e", &matches, &mut last_tab_input);
    assert_eq!(echo, "\necho  exit  export  \n\r$ e");
    assert_eq!(input, "e");
    assert_eq!(last_tab_input, None);
}

#[test]
fn test_handle_history_up_empty_history() {
    let history = History::new();
    let mut input = String::new();
    let mut history_index = None;

    let echo = handle_history_up(&mut input, &mut history_index, &history);
    assert_eq!(echo, "");
    assert_eq!(input, "");
    assert_eq!(history_index, None);
}

#[test]
fn test_handle_history_up_first_command() {
    let mut history = History::new();
    history.append("echo hello");
    history.append("echo world");

    let mut input = String::new();
    let mut history_index = None;

    let echo = handle_history_up(&mut input, &mut history_index, &history);
    assert_eq!(echo, "\x1b[Kecho world");
    assert_eq!(input, "echo world");
    assert_eq!(history_index, Some(0));
}

#[test]
fn test_handle_history_up_second_command() {
    let mut history = History::new();
    history.append("echo hello");
    history.append("echo world");

    let mut input = String::new();
    let mut history_index = None;

    handle_history_up(&mut input, &mut history_index, &history);
    let echo = handle_history_up(&mut input, &mut history_index, &history);
    assert_eq!(echo, format!("{}\x1b[Kecho hello", "\x08".repeat(10)));
    assert_eq!(input, "echo hello");
    assert_eq!(history_index, Some(1));
}

#[test]
fn test_handle_history_up_at_oldest() {
    let mut history = History::new();
    history.append("echo world");
    history.append("echo hello");

    let mut input = String::from("echo world");
    let mut history_index = Some(1);

    // Should not change when already at oldest
    let echo = handle_history_up(&mut input, &mut history_index, &history);
    assert_eq!(echo, "");
    assert_eq!(input, "echo world");
    assert_eq!(history_index, Some(1));
}

#[test]
fn test_handle_history_down_not_navigating() {
    let mut history = History::new();
    history.append("echo world");
    history.append("echo hello");

    let mut input = String::from("test");
    let mut history_index = None;

    let echo = handle_history_down(&mut input, &mut history_index, &history);
    assert_eq!(echo, "");
    assert_eq!(input, "test");
    assert_eq!(history_index, None);
}

#[test]
fn test_handle_history_down_to_empty() {
    let mut history = History::new();
    history.append("echo hello");

    let mut input = String::from("echo hello");
    let mut history_index = Some(0);

    let echo = handle_history_down(&mut input, &mut history_index, &history);
    assert_eq!(echo, format!("{}\x1b[K", "\x08".repeat(10)));
    assert_eq!(input, "");
    assert_eq!(history_index, None);
}

#[test]
fn test_handle_history_down_to_newer() {
    let mut history = History::new();
    history.append("echo hello");
    history.append("echo world");

    let mut input = String::from("echo hello");
    let mut history_index = Some(1);

    let echo = handle_history_down(&mut input, &mut history_index, &history);
    assert_eq!(echo, format!("{}\x1b[Kecho world", "\x08".repeat(10)));
    assert_eq!(input, "echo world");
    assert_eq!(history_index, Some(0));
}

#[test]
fn test_clear_line_empty_input() {
    assert_eq!(clear_line(""), "\x1b[K");
}

#[test]
fn test_clear_line_with_content() {
    assert_eq!(clear_line("echo hello"), format!("{}\x1b[K", "\x08".repeat(10)));
}

#[test]
fn clear_line_goes_back_once_for_each_byte() {
    let input = "a\u{e9}\u{4e16}\u{1f600}";
    assert_eq!(input.len(), 10);
    assert_eq!(clear_line(input), format!("{}\x1b[K", "\x08".repeat(input.len())));
    assert_eq!(clear_line("\u{7f}\u{80}\u{7ff}\u{800}\u{ffff}\u{10000}"), format!("{}\x1b[K", "\x08".repeat(1 + 2 + 2 + 3 + 3 + 4)));
}

#[test]
fn up_twice_then_a_third_time_does_not_wrap() {
    let mut history = History::new();
    history.append("a");
    history.append("b");
    let mut input = String::new();
    let mut index = None;
    handle_history_up(&mut input, &mut index, &history);
    assert_eq!((input.as_str(), index), ("b", Some(0)));
    handle_history_up(&mut input, &mut index, &history);
    assert_eq!((input.as_str(), index), ("a", Some(1)));
    let echo = handle_history_up(&mut input, &mut index, &history);
    assert_eq!((input.as_str(), index, echo.as_str()), ("a", Some(1), ""));
}

#[test]
fn stale_place_in_the_history_is_left_alone() {
    let mut history = History::new();
    history.append("a");
    let mut input = String::from("typed");
    let mut index = Some(7);
    assert_eq!(handle_history_down(&mut input, &mut index, &history), "");
    assert_eq!((input.as_str(), index), ("typed", Some(7)));
    assert_eq!(handle_history_up(&mut input, &mut index, &history), "");
    assert_eq!((input.as_str(), index), ("typed", Some(7)));
    let mut last = Some(usize::MAX);
    assert_eq!(handle_history_up(&mut input, &mut last, &history), "");
    assert_eq!(last, Some(usize::MAX));
}

#[test]
fn several_matches_grow_the_word_to_what_they_share() {
    let mut input = String::from("ls ca");
    let matches = vec!["cargo".to_string(), "cart".to_string()];
    let mut last_tab_input = None;
    let echo = handle_multiple_completions(&mut input, "ca", &matches, &mut last_tab_input);
    assert_eq!(echo, "r");
    assert_eq!(input, "ls car");
    assert_eq!(last_tab_input, Some("ls car".to_string()));
    let echo = handle_multiple_completions(&mut input, "car", &matches, &mut last_tab_input);
    assert_eq!(echo, "\ncargo  cart  \n\r$ ls car");
    assert_eq!(last_tab_input, None);
}

#[test]
fn no_match_rings_and_remembers_nothing() {
    let mut input = String::from("zz");
    let mut last_tab_input = Some("zz".to_string());
    let echo = process_completion_matches(&mut input, "zz", &vec![], &mut last_tab_input);
    assert_eq!(echo, "\x07");
    assert_eq!(last_tab_input, Some("zz".to_string()));
}

#[test]
fn matches_are_listed_with_two_spaces_after_each() {
    assert_eq!(display_matches_and_reprompt("e", &vec!["echo".to_string(), "exit".to_string()]), "\necho  exit  \n\r$ e");
    assert_eq!(display_matches_and_reprompt("", &vec![]), "\n\n\r$ ");
}

#[test]
fn last_word_is_what_whitespace_leaves_at_the_end() {
    let autocomplete = create_test_autocomplete();
    let mut last_tab_input = None;
    let mut input = String::from("ls\tec");
    assert_eq!(handle_tab_completion(&mut input, &autocomplete, &mut last_tab_input), "ho ");
    assert_eq!(input, "ls\techo ");
    let mut input = String::from("ec  ");
    assert_eq!(handle_tab_completion(&mut input, &autocomplete, &mut last_tab_input), "ho ");
    assert_eq!(input, "ec  ho ");
    let mut input = String::from(" \t ");
    assert_eq!(handle_tab_completion(&mut input, &autocomplete, &mut last_tab_input), "");
    assert_eq!(input, " \t ");
}

#[test]
fn escape_sequences_give_the_two_arrows_only() {
    assert_eq!(read_arrow_sequence(EscapeState::Idle, 0x1b), (EscapeState::Escape, None));
    assert_eq!(read_arrow_sequence(EscapeState::Idle, b'['), (EscapeState::Idle, None));
    assert_eq!(read_arrow_sequence(EscapeState::Escape, b'['), (EscapeState::Bracket, None));
    assert_eq!(read_arrow_sequence(EscapeState::Escape, b'A'), (EscapeState::Idle, None));
    assert_eq!(read_arrow_sequence(EscapeState::Bracket, b'A'), (EscapeState::Idle, Some(ArrowKey::Up)));
    assert_eq!(read_arrow_sequence(EscapeState::Bracket, b'B'), (EscapeState::Idle, Some(ArrowKey::Down)));
    assert_eq!(read_arrow_sequence(EscapeState::Bracket, b'C'), (EscapeState::Idle, None));
}

fn feed(editor: &mut LineEditor, bytes: &[u8], history: &History) -> (String, Outcome) {
    let autocomplete = create_test_autocomplete();
    let mut shown = String::new();
    let mut outcome = Outcome::Pending;
    for byte in bytes {
        let reaction = editor.step(*byte, &autocomplete, history);
        shown.push_str(&reaction.echo);
        outcome = reaction.outcome;
    }
    (shown, outcome)
}

#[test]
fn typed_line_is_returned_on_enter() {
    let history = History::new();
    let mut editor = LineEditor::new();
    let (shown, outcome) = feed(&mut editor, b"ls -l\n", &history);
    assert_eq!(shown, "ls -l\n");
    assert_eq!(outcome, Outcome::Line("ls -l".to_string()));
    let mut editor = LineEditor::new();
    let (shown, outcome) = feed(&mut editor, b"x\r", &history);
    assert_eq!(shown, "x\n");
    assert_eq!(outcome, Outcome::Line("x".to_string()));
}

#[test]
fn control_c_interrupts() {
    let history = History::new();
    let mut editor = LineEditor::new();
    let (shown, outcome) = feed(&mut editor, b"ab\x03", &history);
    assert_eq!(shown, "ab^C\n");
    assert_eq!(outcome, Outcome::Interrupted);
}

#[test]
fn backspace_and_delete_take_a_character_off() {
    let history = History::new();
    let mut editor = LineEditor::new();
    let (shown, outcome) = feed(&mut editor, b"abc\x7f\x08\x7f\x7f", &history);
    assert_eq!(shown, "abc\x08 \x08\x08 \x08\x08 \x08");
    assert_eq!(outcome, Outcome::Pending);
    assert_eq!(editor.input, "");
}

#[test]
fn tab_completes_and_second_tab_lists() {
    let history = History::new();
    let mut editor = LineEditor::new();
    let (shown, _) = feed(&mut editor, b"ec\t", &history);
    assert_eq!(shown, "echo ");
    assert_eq!(editor.input, "echo ");
    let mut editor = LineEditor::new();
    let (shown, _) = feed(&mut editor, b"e\t", &history);
    assert_eq!(shown, "e\x07");
    assert_eq!(editor.last_tab_input, Some("e".to_string()));
    let (shown, _) = feed(&mut editor, b"\t", &history);
    assert_eq!(shown, "\necho  exit  export  \n\r$ e");
    assert_eq!(editor.last_tab_input, None);
    let (shown, _) = feed(&mut editor, b"\tx\t", &history);
    assert_eq!(shown, "\x07x\x07");
    assert_eq!(editor.input, "ex");
}

#[test]
fn a_key_between_two_tabs_forgets_the_first() {
    let history = History::new();
    let mut editor = LineEditor::new();
    feed(&mut editor, b"e\t", &history);
    let (shown, _) = feed(&mut editor, b"x\x7f\t", &history);
    assert_eq!(shown, "x\x08 \x08\x07");
}

#[test]
fn arrows_walk_the_history() {
    let mut history = History::new();
    history.append("a");
    history.append("b");
    let mut editor = LineEditor::new();
    let (shown, _) = feed(&mut editor, b"\x1b[A", &history);
    assert_eq!(shown, "\x1b[Kb");
    assert_eq!((editor.input.as_str(), editor.history_index), ("b", Some(0)));
    feed(&mut editor, b"\x1b[A", &history);
    assert_eq!((editor.input.as_str(), editor.history_index), ("a", Some(1)));
    feed(&mut editor, b"\x1b[A", &history);
    assert_eq!((editor.input.as_str(), editor.history_index), ("a", Some(1)));
    feed(&mut editor, b"\x1b[B", &history);
    assert_eq!((editor.input.as_str(), editor.history_index), ("b", Some(0)));
    let (shown, _) = feed(&mut editor, b"\x1b[B", &history);
    assert_eq!(shown, "\x08\x1b[K");
    assert_eq!((editor.input.as_str(), editor.history_index), ("", None));
    let (shown, _) = feed(&mut editor, b"\x1b[B", &history);
    assert_eq!(shown, "");
}

#[test]
fn typing_leaves_the_history() {
    let mut history = History::new();
    history.append("a");
    let mut editor = LineEditor::new();
    feed(&mut editor, b"\x1b[Ax", &history);
    assert_eq!((editor.input.as_str(), editor.history_index), ("ax", None));
    feed(&mut editor, b"\x1b[A", &history);
    assert_eq!((editor.input.as_str(), editor.history_index), ("a", Some(0)));
}

#[test]
fn tab_keeps_the_place_in_the_history() {
    let mut history = History::new();
    history.append("ec");
    let mut editor = LineEditor::new();
    feed(&mut editor, b"\x1b[A\t", &history);
    assert_eq!((editor.input.as_str(), editor.history_index), ("echo ", Some(0)));
}

#[test]
fn other_escape_sequences_are_swallowed() {
    let history = History::new();
    let mut editor = LineEditor::new();
    let (shown, outcome) = feed(&mut editor, b"a\x1b[Cb\x1bOc\x1b\nd", &history);
    assert_eq!(shown, "abcd");
    assert_eq!(outcome, Outcome::Pending);
    assert_eq!(editor.input, "abcd");
}

#[test]
fn bytes_join_the_buffer_one_character_each() {
    let history = History::new();
    let mut editor = LineEditor::new();
    feed(&mut editor, &[0xc3, 0xa9], &history);
    assert_eq!(editor.input, "\u{c3}\u{a9}");
}

#[test]
fn raw_mode_switches_off_the_given_modes_only() {
    assert_eq!(raw_local_modes(0b1111_1010, 0b0000_1011), 0b1111_0000);
    assert_eq!(raw_local_modes(0x8a3b, 0x8000 | 0x0008 | 0x0002 | 0x0001), 0x0a30);
    assert_eq!(raw_local_modes(u64::MAX, 0), u64::MAX);
    assert_eq!(raw_local_modes(0, u64::MAX), 0);
    assert_eq!((RAW_MIN_BYTES, RAW_TIMEOUT), (1, 0));
}
