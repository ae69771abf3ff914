//! The line editor: what each byte from the terminal does to the line, and
//! what the terminal is sent in answer.

use crate::autocompletion::{
    common_prefix_of, completions, is_common_prefix, longest_common_prefix, AutoCompletion,
};
use crate::history::History;
use crate::text::{
    from_chars, from_range, last_word, last_word_bounds, push_for_each_byte, push_str_chars,
    repeated, text_of, to_chars, utf8_len,
};
use vstd::prelude::*;
use vstd::string::StringExecFns;

verus! {

/// What erases the character before the cursor on the terminal: back, a
/// space over it, back again.
pub const BACKSPACE_ERASE_SEQUENCE: &'static str = "\x08 \x08";

/// What stands before the line to type.
pub const PROMPT: &'static str = "$ ";

/// Enter, as a line feed.
pub const NEWLINE: char = '\n';

/// Enter, as a carriage return.
pub const CARRIAGE_RETURN: char = '\r';

/// The key that asks for completion.
pub const TAB: char = '\t';

/// The byte that most terminals send for the backspace key.
pub const BACKSPACE: char = '\u{7f}';

/// The byte that other terminals send for it.
pub const DELETE: char = '\u{0008}';

/// Rings the terminal's bell.
pub const BEEP: char = '\x07';

/// Ctrl-C, which in raw mode arrives as a byte.
pub const CTRL_C: char = '\u{0003}';

/// Escape, which starts the sequence of an arrow key.
pub const ESC: char = '\u{001b}';

/// How many bytes a read waits for in raw mode: each key arrives at once.
pub const RAW_MIN_BYTES: u8 = 1;

/// How long a read waits in raw mode, in tenths of a second: no limit.
pub const RAW_TIMEOUT: u8 = 0;

/// The local modes of a terminal in raw mode: those of `modes` but the ones
/// in `off`, which are the modes for line editing, echo, extended input and
/// signal keys. Every other mode stays as it is.
pub fn raw_local_modes(modes: u64, off: u64) -> (r: u64)
    ensures
        r == modes & !off,
        r & off == 0,
        r | (modes & off) == modes,
{
    let r = modes & !off;
    assert(r & off == 0 && r | (modes & off) == modes) by (bit_vector)
        requires
            r == modes & !off,
    ;
    r
}

/// The text that clears the line shown for `input`: the cursor goes back
/// once for each byte of `input`, then the rest of the line is cleared.
pub open spec fn erase_text(input: Seq<char>) -> Seq<char> {
    repeated('\x08', utf8_len(input)) + seq!['\x1b', '[', 'K']
}

/// What a key leaves of the buffer and of the memory of the last Tab, and
/// what it sends to the terminal.
pub struct Edit {
    pub input: Seq<char>,
    pub last_tab_input: Option<Seq<char>>,
    pub echo: Seq<char>,
}

/// What an arrow key leaves of the buffer and of the place in the history,
/// and what it sends to the terminal.
pub struct Recall {
    pub input: Seq<char>,
    pub history_index: Option<usize>,
    pub echo: Seq<char>,
}

/// The matches, each followed by two spaces.
pub open spec fn listed(matches: Seq<Seq<char>>) -> Seq<char>
    decreases matches.len(),
{
    if matches.len() == 0 {
        Seq::empty()
    } else {
        listed(matches.drop_last()) + matches.last() + seq![' ', ' ']
    }
}

/// The list of matches on a line of its own, then the prompt and the buffer
/// again.
pub open spec fn matches_display(input: Seq<char>, matches: Seq<Seq<char>>) -> Seq<char> {
    seq!['\n'] + listed(matches) + seq!['\n', '\r'] + PROMPT@ + input
}

/// After Tab with one match: the rest of the match and a space are added,
/// unless the word is the match already.
pub open spec fn after_single(
    input: Seq<char>,
    word: Seq<char>,
    completion: Seq<char>,
    last_tab_input: Option<Seq<char>>,
) -> Edit {
    if completion.len() > word.len() {
        let added = completion.skip(word.len() as int).push(' ');
        Edit { input: input + added, last_tab_input, echo: added }
    } else {
        Edit { input, last_tab_input, echo: Seq::empty() }
    }
}

/// After Tab with several matches: the word grows to what they all start
/// with; where it cannot grow, the first Tab rings the bell and is
/// remembered, and a second Tab on the same buffer lists the matches.
pub open spec fn after_multiple(
    input: Seq<char>,
    word: Seq<char>,
    matches: Seq<Seq<char>>,
    last_tab_input: Option<Seq<char>>,
) -> Edit {
    if matches.len() > 0 && longest_common_prefix(matches).len() > word.len() {
        let added = longest_common_prefix(matches).skip(word.len() as int);
        Edit { input: input + added, last_tab_input: Some(input + added), echo: added }
    } else if last_tab_input == Some(input) {
        Edit { input, last_tab_input: None, echo: matches_display(input, matches) }
    } else {
        Edit { input, last_tab_input: Some(input), echo: seq![BEEP] }
    }
}

/// After Tab, where `matches` are the completions of the last word `word`.
pub open spec fn after_matches(
    input: Seq<char>,
    word: Seq<char>,
    matches: Seq<Seq<char>>,
    last_tab_input: Option<Seq<char>>,
) -> Edit {
    if matches.len() == 0 {
        Edit { input, last_tab_input, echo: seq![BEEP] }
    } else if matches.len() == 1 {
        after_single(input, word, matches[0], last_tab_input)
    } else {
        after_multiple(input, word, matches, last_tab_input)
    }
}

/// After the Up arrow: one entry further back in the history, as far as it
/// goes.
pub open spec fn after_history_up(
    input: Seq<char>,
    history_index: Option<usize>,
    history: Seq<Seq<char>>,
) -> Recall {
    let target: Option<int> = match history_index {
        None => Some(0int),
        Some(k) => if k + 1 < history.len() {
            Some(k + 1)
        } else {
            None
        },
    };
    match target {
        Some(t) => if t < history.len() {
            let entry = history[history.len() - 1 - t];
            Recall {
                input: entry,
                history_index: Some(t as usize),
                echo: erase_text(input) + entry,
            }
        } else {
            Recall { input, history_index, echo: Seq::empty() }
        },
        None => Recall { input, history_index, echo: Seq::empty() },
    }
}

/// After the Down arrow: one entry forward in the history, and from the most
/// recent one to an empty line.
pub open spec fn after_history_down(
    input: Seq<char>,
    history_index: Option<usize>,
    history: Seq<Seq<char>>,
) -> Recall {
    match history_index {
        None => Recall { input, history_index, echo: Seq::empty() },
        Some(k) => if k == 0 {
            Recall { input: Seq::empty(), history_index: None, echo: erase_text(input) }
        } else if k - 1 < history.len() {
            let entry = history[history.len() - k];
            Recall {
                input: entry,
                history_index: Some((k - 1) as usize),
                echo: erase_text(input) + entry,
            }
        } else {
            Recall { input, history_index, echo: Seq::empty() }
        },
    }
}

/// From the oldest entry the Up arrow goes no further: nothing changes and
/// nothing is sent.
pub proof fn lemma_up_stops_at_oldest(input: Seq<char>, history: Seq<Seq<char>>)
    requires
        0 < history.len() <= usize::MAX,
    ensures
        after_history_up(input, Some((history.len() - 1) as usize), history) == (Recall {
            input,
            history_index: Some((history.len() - 1) as usize),
            echo: Seq::empty(),
        }),
{
}

/// With a history of two entries the Up arrow shows the later one, then the
/// earlier one, and a third time changes nothing.
pub proof fn lemma_up_through_two(input: Seq<char>, a: Seq<char>, b: Seq<char>)
    ensures
        ({
            let history = seq![a, b];
            let first = after_history_up(input, None, history);
            let second = after_history_up(first.input, first.history_index, history);
            let third = after_history_up(second.input, second.history_index, history);
            &&& first.history_index == Some(0usize) && first.input == b
            &&& second.history_index == Some(1usize) && second.input == a
            &&& third.history_index == Some(1usize) && third.input == a && third.echo.len() == 0
        }),
{
}

/// The Down arrow after the Up arrow shows the entry that was shown before.
pub proof fn lemma_down_undoes_up(input: Seq<char>, k: usize, history: Seq<Seq<char>>)
    requires
        k + 1 < history.len(),
        history.len() <= usize::MAX,
    ensures
        ({
            let up = after_history_up(input, Some(k), history);
            let down = after_history_down(up.input, up.history_index, history);
            up.history_index == Some((k + 1) as usize) && down.history_index == Some(k)
                && down.input == history[history.len() - 1 - k]
        }),
{
}

/// The Up arrow on a line that is not in the history shows the most recent
/// entry, and the Down arrow from there clears the line.
pub proof fn lemma_up_from_typed_line(input: Seq<char>, history: Seq<Seq<char>>)
    requires
        history.len() > 0,
    ensures
        ({
            let up = after_history_up(input, None, history);
            let down = after_history_down(up.input, up.history_index, history);
            up.input == history.last() && up.history_index == Some(0usize) && down.input.len()
                == 0 && down.history_index == None::<usize>
        }),
{
}

/// The text that clears the line shown for `input`.
pub fn clear_line(input: &str) -> (echo: String)
    ensures
        echo@ == erase_text(input@),
{
    let mut out: Vec<char> = Vec::new();
    push_for_each_byte(&mut out, input, '\x08');
    out.push('\x1b');
    out.push('[');
    out.push('K');
    from_chars(&out)
}

/// Backspace: takes the last character off the buffer, if there is one.
/// Returns what to send to the terminal.
pub fn handle_backspace(input: &mut String) -> (echo: String)
    ensures
        old(input)@.len() == 0 ==> final(input)@ == old(input)@ && echo@.len() == 0,
        old(input)@.len() > 0 ==> final(input)@ == old(input)@.drop_last() && echo@
            == BACKSPACE_ERASE_SEQUENCE@,
{
    match input.pop() {
        Some(_) => String::from_str(BACKSPACE_ERASE_SEQUENCE),
        None => String::new(),
    }
}

/// Any other key: the character joins the buffer and is sent to the
/// terminal.
pub fn handle_regular_char(input: &mut String, ch: char) -> (echo: String)
    ensures
        final(input)@ == old(input)@.push(ch),
        echo@ == seq![ch],
{
    input.push(ch);
    let mut echo = String::new();
    echo.push(ch);
    echo
}

/// The list of matches on a line of its own, then the prompt and the buffer
/// again.
pub fn display_matches_and_reprompt(input: &str, matches: &Vec<String>) -> (echo: String)
    ensures
        echo@ == matches_display(input@, matches.deep_view()),
{
    let ghost m = matches.deep_view();
    let mut out: Vec<char> = Vec::new();
    out.push('\n');
    let mut i: usize = 0;
    while i < matches.len()
        invariant
            i <= matches.len(),
            m == matches.deep_view(),
            out@ == seq!['\n'] + listed(m.take(i as int)),
        decreases matches.len() - i,
    {
        push_str_chars(&mut out, matches[i].as_str());
        out.push(' ');
        out.push(' ');
        proof {
            let now = m.take(i + 1);
            assert(now.drop_last() =~= m.take(i as int));
        }
        i = i + 1;
    }
    assert(m.take(matches.len() as int) =~= m);
    out.push('\n');
    out.push('\r');
    push_str_chars(&mut out, PROMPT);
    push_str_chars(&mut out, input);
    from_chars(&out)
}

/// Tab with the one match `completion` for the word `last_word`.
pub fn handle_single_completion(input: &mut String, last_word: &str, completion: &str) -> (echo:
    String)
    requires
        last_word@.is_prefix_of(completion@),
    ensures
        ({
            let edit = after_single(old(input)@, last_word@, completion@, None);
            final(input)@ == edit.input && echo@ == edit.echo
        }),
{
    let word = to_chars(last_word);
    let whole = to_chars(completion);
    if whole.len() > word.len() {
        let mut added = from_range(&whole, word.len(), whole.len());
        added.push(' ');
        input.append(added.as_str());
        proof {
            assert(whole@.subrange(word@.len() as int, whole@.len() as int) =~= completion@.skip(
                last_word@.len() as int,
            ));
        }
        added
    } else {
        String::new()
    }
}

/// Tab with several matches for the word `last_word`.
pub fn handle_multiple_completions(
    input: &mut String,
    last_word: &str,
    matches: &Vec<String>,
    last_tab_input: &mut Option<String>,
) -> (echo: String)
    requires
        is_common_prefix(last_word@, matches.deep_view()),
    ensures
        ({
            let edit = after_multiple(
                old(input)@,
                last_word@,
                matches.deep_view(),
                text_of(*old(last_tab_input)),
            );
            final(input)@ == edit.input && text_of(*final(last_tab_input)) == edit.last_tab_input
                && echo@ == edit.echo
        }),
{
    let is_consecutive_tab = match last_tab_input {
        Some(previous) => *previous == *input,
        None => false,
    };
    let word = to_chars(last_word);
    let grown: Option<String> = match common_prefix_of(matches) {
        Some(prefix) => {
            let whole = to_chars(prefix.as_str());
            if whole.len() > word.len() {
                proof {
                    assert(whole@.subrange(word@.len() as int, whole@.len() as int)
                        =~= longest_common_prefix(matches.deep_view()).skip(
                        last_word@.len() as int,
                    ));
                }
                Some(from_range(&whole, word.len(), whole.len()))
            } else {
                None
            }
        },
        None => None,
    };
    match grown {
        Some(added) => {
            input.append(added.as_str());
            *last_tab_input = Some(input.clone());
            added
        },
        None => {
            if is_consecutive_tab {
                let echo = display_matches_and_reprompt(input.as_str(), matches);
                *last_tab_input = None;
                echo
            } else {
                *last_tab_input = Some(input.clone());
                let mut echo = String::new();
                echo.push(BEEP);
                echo
            }
        },
    }
}

/// Tab, where `matches` are the completions of the word `last_word`: none
/// rings the bell, one completes the word, several are handled as
/// `handle_multiple_completions` says.
pub fn process_completion_matches(
    input: &mut String,
    last_word: &str,
    matches: &Vec<String>,
    last_tab_input: &mut Option<String>,
) -> (echo: String)
    requires
        is_common_prefix(last_word@, matches.deep_view()),
    ensures
        ({
            let edit = after_matches(
                old(input)@,
                last_word@,
                matches.deep_view(),
                text_of(*old(last_tab_input)),
            );
            final(input)@ == edit.input && text_of(*final(last_tab_input)) == edit.last_tab_input
                && echo@ == edit.echo
        }),
{
    if matches.len() == 0 {
        let mut echo = String::new();
        echo.push(BEEP);
        echo
    } else if matches.len() == 1 {
        handle_single_completion(input, last_word, matches[0].as_str())
    } else {
        handle_multiple_completions(input, last_word, matches, last_tab_input)
    }
}

/// Tab: completes the last word of the buffer. A buffer without a word is
/// left alone and nothing is sent; otherwise the completion is asked for the
/// matches of the last word, and they decide.
pub fn handle_tab_completion<F: Fn(&str) -> Vec<String>>(
    input: &mut String,
    autocomplete: &AutoCompletion<F>,
    last_tab_input: &mut Option<String>,
) -> (echo: String)
    requires
        autocomplete.wf(),
    ensures
        match last_word(old(input)@) {
            None => final(input)@ == old(input)@ && *final(last_tab_input) == *old(
                last_tab_input,
            ) && echo@.len() == 0,
            Some(word) => exists|asked: &str, dynamic_matches: Vec<String>|
                asked@ == word && #[trigger] call_ensures(
                    autocomplete.dynamic(),
                    (asked,),
                    dynamic_matches,
                ) && ({
                    let edit = after_matches(
                        old(input)@,
                        word,
                        completions(autocomplete@, word, dynamic_matches.deep_view()),
                        text_of(*old(last_tab_input)),
                    );
                    final(input)@ == edit.input && text_of(*final(last_tab_input))
                        == edit.last_tab_input && echo@ == edit.echo
                }),
        },
{
    let chars = to_chars(input.as_str());
    match last_word_bounds(&chars) {
        None => String::new(),
        Some((start, end)) => {
            let word = from_range(&chars, start, end);
            let matches = autocomplete.complete(word.as_str());
            process_completion_matches(input, word.as_str(), &matches, last_tab_input)
        },
    }
}

/// The Up arrow. Returns what to send to the terminal.
pub fn handle_history_up(
    input: &mut String,
    history_index: &mut Option<usize>,
    history: &History,
) -> (echo: String)
    ensures
        ({
            let recall = after_history_up(old(input)@, *old(history_index), history@);
            final(input)@ == recall.input && *final(history_index) == recall.history_index
                && echo@ == recall.echo
        }),
{
    let len = history.len();
    if len == 0 {
        return String::new();
    }
    let target: usize = match *history_index {
        None => 0,
        Some(k) => {
            if k < len - 1 {
                k + 1
            } else {
                return String::new();
            }
        },
    };
    match history.get_last_command_by_idx(target) {
        Some(entry) => {
            let mut echo = clear_line(input.as_str());
            echo.append(entry);
            *input = entry.to_owned();
            *history_index = Some(target);
            echo
        },
        None => String::new(),
    }
}

/// The Down arrow. Returns what to send to the terminal.
pub fn handle_history_down(
    input: &mut String,
    history_index: &mut Option<usize>,
    history: &History,
) -> (echo: String)
    ensures
        ({
            let recall = after_history_down(old(input)@, *old(history_index), history@);
            final(input)@ == recall.input && *final(history_index) == recall.history_index
                && echo@ == recall.echo
        }),
{
    match *history_index {
        None => String::new(),
        Some(k) => {
            if k == 0 {
                let echo = clear_line(input.as_str());
                *input = String::new();
                *history_index = None;
                echo
            } else {
                match history.get_last_command_by_idx(k - 1) {
                    Some(entry) => {
                        let mut echo = clear_line(input.as_str());
                        echo.append(entry);
                        *input = entry.to_owned();
                        *history_index = Some(k - 1);
                        echo
                    },
                    None => String::new(),
                }
            }
        },
    }
}

/// One of the two arrow keys that the editor knows.
#[derive(Clone, Copy, Debug, PartialEq, Eq, Structural)]
pub enum ArrowKey {
    Up,
    Down,
}

/// How far into an escape sequence the bytes read so far have led.
#[derive(Clone, Copy, Debug, PartialEq, Eq, Structural)]
pub enum EscapeState {
    /// Outside any sequence.
    Idle,
    /// Escape was read.
    Escape,
    /// Escape and `[` were read.
    Bracket,
}

/// Where `byte` leads from `state`, and the arrow key that it completes.
/// After Escape only `[` goes on; after `[`, `A` is Up and `B` is Down; any
/// other byte ends the sequence and is dropped.
pub open spec fn arrow_after(state: EscapeState, byte: u8) -> (EscapeState, Option<ArrowKey>) {
    match state {
        EscapeState::Idle => if byte as char == ESC {
            (EscapeState::Escape, None)
        } else {
            (EscapeState::Idle, None)
        },
        EscapeState::Escape => if byte as char == '[' {
            (EscapeState::Bracket, None)
        } else {
            (EscapeState::Idle, None)
        },
        EscapeState::Bracket => if byte as char == 'A' {
            (EscapeState::Idle, Some(ArrowKey::Up))
        } else if byte as char == 'B' {
            (EscapeState::Idle, Some(ArrowKey::Down))
        } else {
            (EscapeState::Idle, None)
        },
    }
}

/// Reads one more byte of an escape sequence.
pub fn read_arrow_sequence(state: EscapeState, byte: u8) -> (r: (EscapeState, Option<ArrowKey>))
    ensures
        r == arrow_after(state, byte),
{
    let ch = byte as char;
    match state {
        EscapeState::Idle => if ch == ESC {
            (EscapeState::Escape, None)
        } else {
            (EscapeState::Idle, None)
        },
        EscapeState::Escape => if ch == '[' {
            (EscapeState::Bracket, None)
        } else {
            (EscapeState::Idle, None)
        },
        EscapeState::Bracket => if ch == 'A' {
            (EscapeState::Idle, Some(ArrowKey::Up))
        } else if ch == 'B' {
            (EscapeState::Idle, Some(ArrowKey::Down))
        } else {
            (EscapeState::Idle, None)
        },
    }
}

/// The state of the line editor between two bytes.
pub struct LineEditor {
    /// The line as typed so far.
    pub input: String,
    /// The buffer as it was when Tab last found nothing to add.
    pub last_tab_input: Option<String>,
    /// The history entry shown, counted back from the most recent one.
    pub history_index: Option<usize>,
    pub escape: EscapeState,
}

/// The editor's state as a mathematical value.
pub struct EditorView {
    pub input: Seq<char>,
    pub last_tab_input: Option<Seq<char>>,
    pub history_index: Option<usize>,
    pub escape: EscapeState,
}

impl View for LineEditor {
    type V = EditorView;

    open spec fn view(&self) -> EditorView {
        EditorView {
            input: self.input@,
            last_tab_input: text_of(self.last_tab_input),
            history_index: self.history_index,
            escape: self.escape,
        }
    }
}

/// What the caller has to do after a byte.
#[derive(Debug, PartialEq)]
pub enum Outcome {
    /// Read the next byte.
    Pending,
    /// The line is complete.
    Line(String),
    /// Ctrl-C: leave the program with exit code 0.
    Interrupted,
}

/// The editor's answer to one byte: what to send to the terminal, and what
/// to do next.
#[derive(Debug, PartialEq)]
pub struct Reaction {
    pub echo: String,
    pub outcome: Outcome,
}

/// An outcome as a mathematical value.
pub enum OutcomeView {
    Pending,
    Line(Seq<char>),
    Interrupted,
}

impl View for Outcome {
    type V = OutcomeView;

    open spec fn view(&self) -> OutcomeView {
        match self {
            Outcome::Pending => OutcomeView::Pending,
            Outcome::Line(line) => OutcomeView::Line(line@),
            Outcome::Interrupted => OutcomeView::Interrupted,
        }
    }
}

/// The state after a byte, with the answer to it.
pub struct Reacted {
    pub state: EditorView,
    pub echo: Seq<char>,
    pub outcome: OutcomeView,
}

/// The byte is a Tab outside an escape sequence: it asks for completion.
pub open spec fn asks_completion(s: EditorView, byte: u8) -> bool {
    s.escape is Idle && byte as char == TAB
}

/// What any byte but a Tab that asks for completion does. Enter completes
/// the line; Ctrl-C interrupts; Backspace and Delete take a character off;
/// Escape starts a sequence, of which only the two arrows do anything; every
/// other byte joins the buffer. Backspace, Delete and the bytes that join the
/// buffer forget the last Tab and the place in the history.
pub open spec fn reacted(s: EditorView, byte: u8, history: Seq<Seq<char>>) -> Reacted {
    let ch = byte as char;
    let (escape, arrow) = arrow_after(s.escape, byte);
    if !(s.escape is Idle) {
        let recall = match arrow {
            Some(ArrowKey::Up) => after_history_up(s.input, s.history_index, history),
            Some(ArrowKey::Down) => after_history_down(s.input, s.history_index, history),
            None => Recall { input: s.input, history_index: s.history_index, echo: Seq::empty() },
        };
        Reacted {
            state: EditorView {
                input: recall.input,
                history_index: recall.history_index,
                escape,
                ..s
            },
            echo: recall.echo,
            outcome: OutcomeView::Pending,
        }
    } else if ch == NEWLINE || ch == CARRIAGE_RETURN {
        Reacted { state: s, echo: seq!['\n'], outcome: OutcomeView::Line(s.input) }
    } else if ch == CTRL_C {
        Reacted { state: s, echo: seq!['^', 'C', '\n'], outcome: OutcomeView::Interrupted }
    } else if ch == BACKSPACE || ch == DELETE {
        Reacted {
            state: EditorView {
                input: if s.input.len() > 0 {
                    s.input.drop_last()
                } else {
                    s.input
                },
                last_tab_input: None,
                history_index: None,
                ..s
            },
            echo: if s.input.len() > 0 {
                BACKSPACE_ERASE_SEQUENCE@
            } else {
                Seq::empty()
            },
            outcome: OutcomeView::Pending,
        }
    } else if ch == ESC {
        Reacted {
            state: EditorView { escape, ..s },
            echo: Seq::empty(),
            outcome: OutcomeView::Pending,
        }
    } else {
        Reacted {
            state: EditorView {
                input: s.input.push(ch),
                last_tab_input: None,
                history_index: None,
                ..s
            },
            echo: seq![ch],
            outcome: OutcomeView::Pending,
        }
    }
}

/// What a Tab does where `matches` are the completions of the buffer's last
/// word `word`.
pub open spec fn reacted_to_tab(s: EditorView, word: Seq<char>, matches: Seq<Seq<char>>) -> Reacted {
    let edit = after_matches(s.input, word, matches, s.last_tab_input);
    Reacted {
        state: EditorView { input: edit.input, last_tab_input: edit.last_tab_input, ..s },
        echo: edit.echo,
        outcome: OutcomeView::Pending,
    }
}

impl LineEditor {
    /// The editor at the start of a line.
    pub fn new() -> (r: LineEditor)
        ensures
            r@ == (EditorView {
                input: Seq::empty(),
                last_tab_input: None,
                history_index: None,
                escape: EscapeState::Idle,
            }),
    {
        LineEditor {
            input: String::new(),
            last_tab_input: None,
            history_index: None,
            escape: EscapeState::Idle,
        }
    }

    /// Takes one byte from the terminal. A Tab outside an escape sequence
    /// completes the last word of the buffer, if it has one, from what
    /// `autocomplete` offers; every other byte does what `reacted` says.
    pub fn step<F: Fn(&str) -> Vec<String>>(
        &mut self,
        byte: u8,
        autocomplete: &AutoCompletion<F>,
        history: &History,
    ) -> (r: Reaction)
        requires
            autocomplete.wf(),
        ensures
            !asks_completion(old(self)@, byte) ==> (Reacted {
                state: final(self)@,
                echo: r.echo@,
                outcome: r.outcome@,
            }) == reacted(old(self)@, byte, history@),
            asks_completion(old(self)@, byte) ==> match last_word(old(self)@.input) {
                None => final(self)@ == old(self)@ && r.echo@.len() == 0 && r.outcome@
                    is Pending,
                Some(word) => exists|asked: &str, dynamic_matches: Vec<String>|
                    asked@ == word && #[trigger] call_ensures(
                        autocomplete.dynamic(),
                        (asked,),
                        dynamic_matches,
                    ) && (Reacted { state: final(self)@, echo: r.echo@, outcome: r.outcome@ })
                        == reacted_to_tab(
                        old(self)@,
                        word,
                        completions(autocomplete@, word, dynamic_matches.deep_view()),
                    ),
            },
    {
        let ch = byte as char;
        let (escape, arrow) = read_arrow_sequence(self.escape, byte);
        match self.escape {
            EscapeState::Idle => {},
            _ => {
                self.escape = escape;
                let echo = match arrow {
                    Some(ArrowKey::Up) => handle_history_up(
                        &mut self.input,
                        &mut self.history_index,
                        history,
                    ),
                    Some(ArrowKey::Down) => handle_history_down(
                        &mut self.input,
                        &mut self.history_index,
                        history,
                    ),
                    None => String::new(),
                };
                return Reaction { echo, outcome: Outcome::Pending };
            },
        }
        if ch == NEWLINE || ch == CARRIAGE_RETURN {
            let mut echo = String::new();
            echo.push('\n');
            Reaction { echo, outcome: Outcome::Line(self.input.clone()) }
        } else if ch == CTRL_C {
            let mut echo = String::new();
            echo.push('^');
            echo.push('C');
            echo.push('\n');
            assert(echo@ =~= seq!['^', 'C', '\n']);
            Reaction { echo, outcome: Outcome::Interrupted }
        } else if ch == BACKSPACE || ch == DELETE {
            self.last_tab_input = None;
            self.history_index = None;
            let echo = handle_backspace(&mut self.input);
            assert(echo@.len() == 0 ==> echo@ =~= Seq::<char>::empty());
            Reaction { echo, outcome: Outcome::Pending }
        } else if ch == TAB {
            let echo = handle_tab_completion(&mut self.input, autocomplete, &mut self.last_tab_input);
            Reaction { echo, outcome: Outcome::Pending }
        } else if ch == ESC {
            self.escape = escape;
            Reaction { echo: String::new(), outcome: Outcome::Pending }
        } else {
            self.last_tab_input = None;
            self.history_index = None;
            let echo = handle_regular_char(&mut self.input, ch);
            Reaction { echo, outcome: Outcome::Pending }
        }
    }
}

} // verus!
