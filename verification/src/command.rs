//! From a line of input to a command: the lexer with its quotes and
//! escapes, the redirections, and the stages of a pipeline.

use crate::text::{copy_range, from_chars, from_range, to_chars, trim_bounds, trimmed};
use vstd::prelude::*;
use vstd::string::StringExecFns;

verus! {

/// Where the lexer stands with respect to quotes.
#[derive(Clone, Copy, Debug)]
pub enum Mode {
    Unquoted,
    Single,
    Double,
}

/// The quoting state carried from one character to the next: the mode, and
/// whether the previous character was a backslash that escapes this one.
#[derive(Clone, Copy, Debug)]
pub struct Quoting {
    pub mode: Mode,
    pub escaped: bool,
}

/// The quoting state after reading `c` in state `q`.
pub open spec fn quoting_after(q: Quoting, c: char) -> Quoting {
    match q.mode {
        Mode::Single => if c == '\'' {
            Quoting { mode: Mode::Unquoted, escaped: q.escaped }
        } else {
            q
        },
        Mode::Double => if q.escaped {
            Quoting { mode: Mode::Double, escaped: false }
        } else if c == '"' {
            Quoting { mode: Mode::Unquoted, escaped: false }
        } else if c == '\\' {
            Quoting { mode: Mode::Double, escaped: true }
        } else {
            q
        },
        Mode::Unquoted => if q.escaped {
            Quoting { mode: Mode::Unquoted, escaped: false }
        } else if c == '\\' {
            Quoting { mode: Mode::Unquoted, escaped: true }
        } else if c == '\'' {
            Quoting { mode: Mode::Single, escaped: false }
        } else if c == '"' {
            Quoting { mode: Mode::Double, escaped: false }
        } else {
            q
        },
    }
}

/// The state in which every line starts: outside quotes, nothing escaped.
pub open spec fn plain() -> Quoting {
    Quoting { mode: Mode::Unquoted, escaped: false }
}

/// `q` is the plain state: a character read in it is neither quoted nor
/// escaped.
pub open spec fn is_plain(q: Quoting) -> bool {
    q.mode is Unquoted && !q.escaped
}

/// The six redirection operators.
pub open spec fn is_operator(t: Seq<char>) -> bool {
    ||| t == seq!['>']
    ||| t == seq!['1', '>']
    ||| t == seq!['2', '>']
    ||| t == seq!['>', '>']
    ||| t == seq!['1', '>', '>']
    ||| t == seq!['2', '>', '>']
}

/// An operator of `n` characters stands in `s` at position `i`.
pub open spec fn operator_stands_at(s: Seq<char>, i: int, n: int) -> bool {
    0 <= i && i + n <= s.len() && is_operator(s.subrange(i, i + n))
}

/// The length of the longest redirection operator that stands in `s` at
/// position `i`, or 0 where none does.
pub open spec fn operator_len_at(s: Seq<char>, i: int) -> nat {
    if operator_stands_at(s, i, 3) {
        3
    } else if operator_stands_at(s, i, 2) {
        2
    } else if operator_stands_at(s, i, 1) {
        1
    } else {
        0
    }
}

/// What the lexer has gathered so far.
pub struct LexState {
    pub quoting: Quoting,
    /// The characters of the token being read.
    pub current: Seq<char>,
    /// The tokens already finished.
    pub tokens: Seq<Seq<char>>,
}

/// The finished tokens, with the one being read added unless it is empty.
pub open spec fn flushed(st: LexState) -> Seq<Seq<char>> {
    if st.current.len() > 0 {
        st.tokens.push(st.current)
    } else {
        st.tokens
    }
}

/// The state after the character `c`, where `c` starts no operator.
pub open spec fn lex_char(st: LexState, c: char) -> LexState {
    let quoting = quoting_after(st.quoting, c);
    match st.quoting.mode {
        Mode::Single => if c == '\'' {
            LexState { quoting, ..st }
        } else {
            LexState { quoting, current: st.current.push(c), ..st }
        },
        Mode::Double => if st.quoting.escaped {
            if c == '"' || c == '\\' || c == '$' || c == '`' {
                LexState { quoting, current: st.current.push(c), ..st }
            } else {
                LexState { quoting, current: st.current.push('\\').push(c), ..st }
            }
        } else if c == '"' || c == '\\' {
            LexState { quoting, ..st }
        } else {
            LexState { quoting, current: st.current.push(c), ..st }
        },
        Mode::Unquoted => if st.quoting.escaped {
            LexState { quoting, current: st.current.push(c), ..st }
        } else if c == '\\' || c == '\'' || c == '"' {
            LexState { quoting, ..st }
        } else if c == ' ' {
            LexState { quoting, current: Seq::empty(), tokens: flushed(st) }
        } else {
            LexState { quoting, current: st.current.push(c), ..st }
        },
    }
}

/// The tokens of `s` from position `i` on, read in state `st`.
pub open spec fn lex_from(s: Seq<char>, i: int, st: LexState) -> Seq<Seq<char>>
    decreases s.len() - i,
{
    if i < 0 || i >= s.len() {
        flushed(st)
    } else if is_plain(st.quoting) && operator_len_at(s, i) > 0 {
        let n = operator_len_at(s, i) as int;
        lex_from(
            s,
            i + n,
            LexState {
                quoting: st.quoting,
                current: Seq::empty(),
                tokens: flushed(st).push(s.subrange(i, i + n)),
            },
        )
    } else {
        lex_from(s, i + 1, lex_char(st, s[i]))
    }
}

/// The tokens of a line: words with quotes and escapes resolved, and
/// redirection operators as tokens of their own.
pub open spec fn tokens_of(s: Seq<char>) -> Seq<Seq<char>> {
    lex_from(s, 0, LexState { quoting: plain(), current: Seq::empty(), tokens: Seq::empty() })
}

/// `operator_len_at` told by the characters at `i` and after it.
pub proof fn lemma_operator_len_at(s: Seq<char>, i: int)
    requires
        0 <= i < s.len(),
    ensures
        operator_len_at(s, i) == (if s[i] == '>' {
            if i + 1 < s.len() && s[i + 1] == '>' {
                2nat
            } else {
                1nat
            }
        } else if (s[i] == '1' || s[i] == '2') && i + 1 < s.len() && s[i + 1] == '>' {
            if i + 2 < s.len() && s[i + 2] == '>' {
                3nat
            } else {
                2nat
            }
        } else {
            0nat
        }),
{
    let one = s.subrange(i, i + 1);
    assert(is_operator(one) <==> s[i] == '>') by {
        if s[i] == '>' {
            assert(one =~= seq!['>']);
        }
        assert(seq!['>'][0] == '>');
        assert(seq!['1', '>'].len() == 2 && seq!['2', '>'].len() == 2 && seq!['>', '>'].len() == 2);
    }
    if i + 2 <= s.len() {
        let two = s.subrange(i, i + 2);
        assert(is_operator(two) <==> (s[i + 1] == '>' && (s[i] == '>' || s[i] == '1' || s[i]
            == '2'))) by {
            if s[i + 1] == '>' && (s[i] == '>' || s[i] == '1' || s[i] == '2') {
                assert(two =~= seq![s[i], '>']);
            }
            assert(seq!['>'].len() == 1);
            assert(seq!['1', '>', '>'].len() == 3 && seq!['2', '>', '>'].len() == 3);
        }
    }
    if i + 3 <= s.len() {
        let three = s.subrange(i, i + 3);
        assert(three.len() == 3 && three[0] == s[i] && three[1] == s[i + 1] && three[2] == s[i
            + 2]);
        assert(is_operator(three) <==> (s[i + 1] == '>' && s[i + 2] == '>' && (s[i] == '1'
            || s[i] == '2'))) by {
            if s[i + 1] == '>' && s[i + 2] == '>' && (s[i] == '1' || s[i] == '2') {
                assert(three =~= seq![s[i], '>', '>']);
            }
            assert(seq!['1', '>'].len() == 2 && seq!['2', '>'].len() == 2 && seq!['>', '>'].len()
                == 2);
            assert(seq!['1', '>', '>'][0] == '1' && seq!['1', '>', '>'][1] == '>' && seq![
                '1',
                '>',
                '>',
            ][2] == '>');
            assert(seq!['2', '>', '>'][0] == '2' && seq!['2', '>', '>'][1] == '>' && seq![
                '2',
                '>',
                '>',
            ][2] == '>');
        }
    }
}

/// The length of the longest redirection operator at `chars[i..]`, 0 for none.
fn operator_len(chars: &Vec<char>, i: usize) -> (n: usize)
    requires
        i < chars.len(),
    ensures
        n == operator_len_at(chars@, i as int),
{
    let len = chars.len();
    let c0 = chars[i];
    proof {
        lemma_operator_len_at(chars@, i as int);
    }
    if c0 == '>' {
        if i + 1 < len && chars[i + 1] == '>' {
            2
        } else {
            1
        }
    } else if (c0 == '1' || c0 == '2') && i + 1 < len && chars[i + 1] == '>' {
        if i + 2 < len && chars[i + 2] == '>' {
            3
        } else {
            2
        }
    } else {
        0
    }
}

/// Moves the token being read, unless it is empty, to the finished tokens.
fn flush_token(result: &mut Vec<String>, current: &mut Vec<char>)
    ensures
        final(current)@.len() == 0,
        final(result).deep_view() == flushed(
            LexState {
                quoting: plain(),
                current: old(current)@,
                tokens: old(result).deep_view(),
            },
        ),
{
    if current.len() > 0 {
        let token = from_chars(current);
        let ghost before = result.deep_view();
        result.push(token);
        current.clear();
    }
}

/// Splits a line into tokens. Single quotes keep everything literal; double
/// quotes keep everything but a backslash before `"`, `\`, `$` or a backtick;
/// outside quotes a backslash makes the next character literal, a space ends
/// the token, and a redirection operator is a token of its own.
pub fn read_quoted_chars(chars: &Vec<char>) -> (result: Vec<String>)
    ensures
        result.deep_view() == tokens_of(chars@),
        all_nonempty(result.deep_view()),
{
    proof {
        lemma_lex_nonempty(
            chars@,
            0,
            LexState { quoting: plain(), current: Seq::empty(), tokens: Seq::empty() },
        );
    }
    let mut result: Vec<String> = Vec::new();
    let mut mode = Mode::Unquoted;
    let mut escaped = false;
    let mut current: Vec<char> = Vec::new();
    let mut i: usize = 0;
    let len = chars.len();
    assert(result.deep_view() =~= Seq::<Seq<char>>::empty());
    while i < len
        invariant
            i <= len,
            len == chars.len(),
            lex_from(
                chars@,
                i as int,
                LexState {
                    quoting: Quoting { mode, escaped },
                    current: current@,
                    tokens: result.deep_view(),
                },
            ) == tokens_of(chars@),
        decreases len - i,
    {
        let ch = chars[i];
        match mode {
            Mode::Single => {
                if ch == '\'' {
                    mode = Mode::Unquoted;
                } else {
                    current.push(ch);
                }
                i = i + 1;
            },
            Mode::Double => {
                if escaped {
                    if ch == '"' || ch == '\\' || ch == '$' || ch == '`' {
                        current.push(ch);
                    } else {
                        current.push('\\');
                        current.push(ch);
                    }
                    escaped = false;
                } else if ch == '"' {
                    mode = Mode::Unquoted;
                } else if ch == '\\' {
                    escaped = true;
                } else {
                    current.push(ch);
                }
                i = i + 1;
            },
            Mode::Unquoted => {
                if escaped {
                    escaped = false;
                    current.push(ch);
                    i = i + 1;
                } else {
                    let n = operator_len(chars, i);
                    if n > 0 {
                        flush_token(&mut result, &mut current);
                        let ghost before = result.deep_view();
                        let operator = from_range(chars, i, i + n);
                        result.push(operator);
                        assert(result.deep_view() =~= before.push(
                            chars@.subrange(i as int, i + n),
                        ));
                        i = i + n;
                    } else {
                        if ch == '\\' {
                            escaped = true;
                        } else if ch == '\'' {
                            mode = Mode::Single;
                        } else if ch == '"' {
                            mode = Mode::Double;
                        } else if ch == ' ' {
                            flush_token(&mut result, &mut current);
                        } else {
                            current.push(ch);
                        }
                        i = i + 1;
                    }
                }
            },
        }
        assert(current@.len() == 0 ==> current@ =~= Seq::<char>::empty());
    }
    flush_token(&mut result, &mut current);
    result
}

/// The first position from `i` on at which `|` stands outside quotes and
/// unescaped, where `q` is the quoting state at `i`.
pub open spec fn pipe_from(s: Seq<char>, i: int, q: Quoting) -> Option<int>
    decreases s.len() - i,
{
    if i < 0 || i >= s.len() {
        None
    } else if is_plain(q) && s[i] == '|' {
        Some(i)
    } else {
        pipe_from(s, i + 1, quoting_after(q, s[i]))
    }
}

/// The position of the first `|` of `s` that is neither quoted nor escaped.
pub open spec fn first_pipe(s: Seq<char>) -> Option<int> {
    pipe_from(s, 0, plain())
}

/// Where the search finds a `|`, there is one, at or after its start.
pub proof fn lemma_pipe_from_in_range(s: Seq<char>, i: int, q: Quoting)
    requires
        0 <= i,
    ensures
        pipe_from(s, i, q) matches Some(p) ==> i <= p < s.len() && s[p] == '|',
    decreases s.len() - i,
{
    if i < s.len() && !(is_plain(q) && s[i] == '|') {
        lemma_pipe_from_in_range(s, i + 1, quoting_after(q, s[i]));
    }
}

/// One of the four ways to redirect a stream to a file.
#[derive(Clone, Copy, Debug, PartialEq, Eq, Structural)]
pub enum RedirectOp {
    /// `>` or `1>`
    Stdout,
    /// `>>` or `1>>`
    StdoutAppend,
    /// `2>`
    Stderr,
    /// `2>>`
    StderrAppend,
}

impl RedirectOp {
    /// The file is added to, not emptied first.
    pub open spec fn appends(self) -> bool {
        self is StdoutAppend || self is StderrAppend
    }

    /// The stream that goes to the file is standard error.
    pub open spec fn to_stderr(self) -> bool {
        self is Stderr || self is StderrAppend
    }
}

/// Why a line is no command.
#[derive(Clone, Copy, Debug, PartialEq, Eq, Structural)]
pub enum ParseError {
    /// No token is left for the command once the redirections are taken out.
    NoCommand,
    /// A redirection operator is the last token: no filename follows it.
    MissingFilename(RedirectOp),
}

/// What is said of a line that does not parse: the reason, then the line
/// without the whitespace around it.
pub open spec fn error_text(error: ParseError, input: Seq<char>) -> Seq<char> {
    (match error {
        ParseError::NoCommand => "No command provided: "@,
        ParseError::MissingFilename(RedirectOp::Stdout) => "Missing filename for stdout redirect: "@,
        ParseError::MissingFilename(RedirectOp::Stderr) => "Missing filename for stderr redirect: "@,
        ParseError::MissingFilename(
            RedirectOp::StdoutAppend,
        ) => "Missing filename for stdout append redirect: "@,
        ParseError::MissingFilename(
            RedirectOp::StderrAppend,
        ) => "Missing filename for stderr append redirect: "@,
    }) + trimmed(input)
}

impl ParseError {
    /// What to say of the line `input` that failed with this error.
    pub fn message(&self, input: &str) -> (r: String)
        ensures
            r@ == error_text(*self, input@),
    {
        let mut message = match self {
            ParseError::NoCommand => String::from_str("No command provided: "),
            ParseError::MissingFilename(RedirectOp::Stdout) => String::from_str(
                "Missing filename for stdout redirect: ",
            ),
            ParseError::MissingFilename(RedirectOp::Stderr) => String::from_str(
                "Missing filename for stderr redirect: ",
            ),
            ParseError::MissingFilename(RedirectOp::StdoutAppend) => String::from_str(
                "Missing filename for stdout append redirect: ",
            ),
            ParseError::MissingFilename(RedirectOp::StderrAppend) => String::from_str(
                "Missing filename for stderr append redirect: ",
            ),
        };
        let chars = to_chars(input);
        let (start, end) = trim_bounds(&chars);
        let line = from_range(&chars, start, end);
        message.append(line.as_str());
        message
    }
}

/// The file that one output stream of a command goes to.
#[derive(Debug, PartialEq)]
pub struct Redirect {
    pub filename: String,
    pub should_append: bool,
}

/// A command as parsed from a line: the first stage of a pipeline, with the
/// stage that it is piped into, if any.
#[derive(Debug, PartialEq)]
pub struct ParsedCommand {
    pub command: String,
    pub args: Vec<String>,
    pub stdout_redirect: Option<Redirect>,
    pub stderr_redirect: Option<Redirect>,
    pub piped_command: Option<Box<ParsedCommand>>,
}

/// A redirection as a mathematical value.
pub struct RedirectView {
    pub filename: Seq<char>,
    pub should_append: bool,
}

/// One stage of a pipeline as a mathematical value.
pub struct StageView {
    pub command: Seq<char>,
    pub args: Seq<Seq<char>>,
    pub stdout_redirect: Option<RedirectView>,
    pub stderr_redirect: Option<RedirectView>,
}

impl View for Redirect {
    type V = RedirectView;

    open spec fn view(&self) -> RedirectView {
        RedirectView { filename: self.filename@, should_append: self.should_append }
    }
}

/// A redirection that may be missing, as a mathematical value.
pub open spec fn redirect_view(r: Option<Redirect>) -> Option<RedirectView> {
    match r {
        Some(r) => Some(r@),
        None => None,
    }
}

/// The stages of the chain that starts at `c`, first stage first.
pub open spec fn chain_of(c: ParsedCommand) -> Seq<StageView>
    decreases c,
{
    match c.piped_command {
        None => seq![c.head()],
        Some(next) => seq![c.head()] + chain_of(*next),
    }
}

impl ParsedCommand {
    /// The first stage of the chain.
    pub open spec fn head(&self) -> StageView {
        StageView {
            command: self.command@,
            args: self.args.deep_view(),
            stdout_redirect: redirect_view(self.stdout_redirect),
            stderr_redirect: redirect_view(self.stderr_redirect),
        }
    }

    /// The arguments of the first stage as string slices.
    pub fn get_args(&self) -> (r: Vec<&str>)
        ensures
            r.deep_view() == self.args.deep_view(),
    {
        let mut r: Vec<&str> = Vec::new();
        let mut i: usize = 0;
        while i < self.args.len()
            invariant
                i <= self.args.len(),
                r.deep_view() == self.args.deep_view().take(i as int),
            decreases self.args.len() - i,
        {
            r.push(self.args[i].as_str());
            assert(self.args.deep_view().take(i + 1) =~= self.args.deep_view().take(
                i as int,
            ).push(self.args[i as int]@));
            i = i + 1;
        }
        r
    }
}

/// A command is seen as the sequence of its stages; it is never empty.
impl View for ParsedCommand {
    type V = Seq<StageView>;

    open spec fn view(&self) -> Seq<StageView> {
        chain_of(*self)
    }
}

/// The redirection that a token stands for, if it is one of the operators.
/// A token counts by its text alone: the lexer keeps no record of quotes, so
/// a quoted `>` that is a token of its own counts as the operator.
pub open spec fn operator_kind(t: Seq<char>) -> Option<RedirectOp> {
    if t == seq!['>'] || t == seq!['1', '>'] {
        Some(RedirectOp::Stdout)
    } else if t == seq!['2', '>'] {
        Some(RedirectOp::Stderr)
    } else if t == seq!['>', '>'] || t == seq!['1', '>', '>'] {
        Some(RedirectOp::StdoutAppend)
    } else if t == seq!['2', '>', '>'] {
        Some(RedirectOp::StderrAppend)
    } else {
        None
    }
}

/// What the tokens read so far amount to.
pub struct Segments {
    /// The tokens that are neither an operator nor its filename.
    pub words: Seq<Seq<char>>,
    pub stdout: Option<RedirectView>,
    pub stderr: Option<RedirectView>,
}

/// Reads the tokens from position `i` on: an operator takes the token after
/// it as its filename, whatever that token is, and a later redirection of
/// the same stream replaces an earlier one.
pub open spec fn segment_from(tokens: Seq<Seq<char>>, i: int, acc: Segments) -> Result<
    Segments,
    ParseError,
>
    decreases tokens.len() - i,
{
    if i < 0 || i >= tokens.len() {
        Ok(acc)
    } else {
        match operator_kind(tokens[i]) {
            None => segment_from(tokens, i + 1, Segments { words: acc.words.push(tokens[i]), ..acc }),
            Some(op) => if i + 1 >= tokens.len() {
                Err(ParseError::MissingFilename(op))
            } else {
                let target = Some(
                    RedirectView { filename: tokens[i + 1], should_append: op.appends() },
                );
                if op.to_stderr() {
                    segment_from(tokens, i + 2, Segments { stderr: target, ..acc })
                } else {
                    segment_from(tokens, i + 2, Segments { stdout: target, ..acc })
                }
            },
        }
    }
}

/// The stage that a list of tokens describes: the first word is the command,
/// the other words are its arguments.
pub open spec fn stage_of(tokens: Seq<Seq<char>>) -> Result<StageView, ParseError> {
    match segment_from(
        tokens,
        0,
        Segments { words: Seq::empty(), stdout: None, stderr: None },
    ) {
        Err(e) => Err(e),
        Ok(seg) => if seg.words.len() == 0 {
            Err(ParseError::NoCommand)
        } else {
            Ok(
                StageView {
                    command: seg.words[0],
                    args: seg.words.skip(1),
                    stdout_redirect: seg.stdout,
                    stderr_redirect: seg.stderr,
                },
            )
        },
    }
}

/// The stage written in `text`: its tokens, once the whitespace around it is
/// trimmed, split into command, arguments and redirections.
pub open spec fn parse_stage(text: Seq<char>) -> Result<StageView, ParseError> {
    stage_of(tokens_of(trimmed(text)))
}

/// What a line parses to. `Ok(None)`: the line holds only whitespace.
/// Otherwise the line is cut at each `|` that is neither quoted nor escaped,
/// and each piece is a stage; what follows a `|` is parsed as a line of its
/// own, so that nothing but whitespace after the last `|` adds no stage.
pub open spec fn parse_line(s: Seq<char>) -> Result<Option<Seq<StageView>>, ParseError>
    decreases s.len(),
{
    if trimmed(s).len() == 0 {
        Ok(None)
    } else {
        match first_pipe(s) {
            None => match parse_stage(s) {
                Err(e) => Err(e),
                Ok(stage) => Ok(Some(seq![stage])),
            },
            Some(p) => if 0 <= p < s.len() {
                match parse_stage(s.take(p)) {
                    Err(e) => Err(e),
                    Ok(stage) => match parse_line(s.skip(p + 1)) {
                        Err(e) => Err(e),
                        Ok(None) => Ok(Some(seq![stage])),
                        Ok(Some(rest)) => Ok(Some(seq![stage] + rest)),
                    },
                }
            } else {
                Ok(None)
            },
        }
    }
}

/// `r` is the exec form of the parse result `expected`.
pub open spec fn parsed_as(
    r: Result<Option<ParsedCommand>, ParseError>,
    expected: Result<Option<Seq<StageView>>, ParseError>,
) -> bool {
    match expected {
        Err(e) => r == Err::<Option<ParsedCommand>, ParseError>(e),
        Ok(None) => r == Ok::<Option<ParsedCommand>, ParseError>(None),
        Ok(Some(stages)) => r matches Ok(Some(c)) && c@ == stages,
    }
}

/// The redirection operator that `token` is, if it is one.
pub fn classify(token: &str) -> (r: Option<RedirectOp>)
    ensures
        r == operator_kind(token@),
{
    proof {
        reveal_strlit(">");
        reveal_strlit("1>");
        reveal_strlit("2>");
        reveal_strlit(">>");
        reveal_strlit("1>>");
        reveal_strlit("2>>");
        assert(">"@ =~= seq!['>']);
        assert("1>"@ =~= seq!['1', '>']);
        assert("2>"@ =~= seq!['2', '>']);
        assert(">>"@ =~= seq!['>', '>']);
        assert("1>>"@ =~= seq!['1', '>', '>']);
        assert("2>>"@ =~= seq!['2', '>', '>']);
    }
    if token.eq(">") || token.eq("1>") {
        Some(RedirectOp::Stdout)
    } else if token.eq("2>") {
        Some(RedirectOp::Stderr)
    } else if token.eq(">>") || token.eq("1>>") {
        Some(RedirectOp::StdoutAppend)
    } else if token.eq("2>>") {
        Some(RedirectOp::StderrAppend)
    } else {
        None
    }
}

/// The position of the first `|` of `chars` that is neither quoted nor
/// escaped.
pub fn find_pipe(chars: &Vec<char>) -> (r: Option<usize>)
    ensures
        match first_pipe(chars@) {
            None => r is None,
            Some(p) => r == Some(p as usize) && 0 <= p < chars.len() && chars@[p] == '|',
        },
{
    let mut mode = Mode::Unquoted;
    let mut escaped = false;
    let mut i: usize = 0;
    let len = chars.len();
    while i < len
        invariant
            i <= len,
            len == chars.len(),
            pipe_from(chars@, i as int, Quoting { mode, escaped }) == first_pipe(chars@),
        decreases len - i,
    {
        let ch = chars[i];
        match mode {
            Mode::Single => {
                if ch == '\'' {
                    mode = Mode::Unquoted;
                }
            },
            Mode::Double => {
                if escaped {
                    escaped = false;
                } else if ch == '"' {
                    mode = Mode::Unquoted;
                } else if ch == '\\' {
                    escaped = true;
                }
            },
            Mode::Unquoted => {
                if escaped {
                    escaped = false;
                } else if ch == '\\' {
                    escaped = true;
                } else if ch == '\'' {
                    mode = Mode::Single;
                } else if ch == '"' {
                    mode = Mode::Double;
                } else if ch == '|' {
                    return Some(i);
                }
            },
        }
        i = i + 1;
    }
    None
}

/// No token of `t` is empty.
pub open spec fn all_nonempty(t: Seq<Seq<char>>) -> bool {
    forall|k: int| 0 <= k < t.len() ==> (#[trigger] t[k]).len() > 0
}

/// The lexer never makes an empty token.
pub proof fn lemma_lex_nonempty(s: Seq<char>, i: int, st: LexState)
    requires
        all_nonempty(st.tokens),
    ensures
        all_nonempty(lex_from(s, i, st)),
    decreases s.len() - i,
{
    if 0 <= i < s.len() {
        if is_plain(st.quoting) && operator_len_at(s, i) > 0 {
            let n = operator_len_at(s, i) as int;
            lemma_lex_nonempty(
                s,
                i + n,
                LexState {
                    quoting: st.quoting,
                    current: Seq::empty(),
                    tokens: flushed(st).push(s.subrange(i, i + n)),
                },
            );
        } else {
            lemma_lex_nonempty(s, i + 1, lex_char(st, s[i]));
        }
    }
}

/// The words that are left once the redirections are taken out are tokens,
/// so none of them is empty where no token is.
pub proof fn lemma_segment_nonempty(tokens: Seq<Seq<char>>, i: int, acc: Segments)
    requires
        all_nonempty(tokens),
        all_nonempty(acc.words),
    ensures
        segment_from(tokens, i, acc) matches Ok(seg) ==> all_nonempty(seg.words),
    decreases tokens.len() - i,
{
    if 0 <= i < tokens.len() {
        match operator_kind(tokens[i]) {
            None => {
                lemma_segment_nonempty(
                    tokens,
                    i + 1,
                    Segments { words: acc.words.push(tokens[i]), ..acc },
                );
            },
            Some(op) => {
                if i + 1 < tokens.len() {
                    let target = Some(
                        RedirectView { filename: tokens[i + 1], should_append: op.appends() },
                    );
                    if op.to_stderr() {
                        lemma_segment_nonempty(tokens, i + 2, Segments { stderr: target, ..acc });
                    } else {
                        lemma_segment_nonempty(tokens, i + 2, Segments { stdout: target, ..acc });
                    }
                }
            },
        }
    }
}

/// A stage that parses has a command that is not empty.
pub proof fn lemma_stage_command_nonempty(text: Seq<char>)
    ensures
        parse_stage(text) matches Ok(stage) ==> stage.command.len() > 0,
{
    let init = LexState { quoting: plain(), current: Seq::empty(), tokens: Seq::empty() };
    lemma_lex_nonempty(trimmed(text), 0, init);
    lemma_segment_nonempty(
        tokens_of(trimmed(text)),
        0,
        Segments { words: Seq::empty(), stdout: None, stderr: None },
    );
}

/// A line that parses to a command has at least one stage, and in every stage
/// a command that is not empty.
pub proof fn lemma_parsed_command_nonempty(s: Seq<char>)
    ensures
        parse_line(s) matches Ok(Some(stages)) ==> stages.len() > 0 && forall|k: int|
            0 <= k < stages.len() ==> (#[trigger] stages[k]).command.len() > 0,
    decreases s.len(),
{
    if trimmed(s).len() > 0 {
        match first_pipe(s) {
            None => {
                lemma_stage_command_nonempty(s);
            },
            Some(p) => {
                if 0 <= p < s.len() {
                    lemma_stage_command_nonempty(s.take(p));
                    lemma_parsed_command_nonempty(s.skip(p + 1));
                }
            },
        }
    }
}

/// The stage written in `text`.
fn parse_stage_chars(text: &Vec<char>) -> (r: Result<ParsedCommand, ParseError>)
    ensures
        match parse_stage(text@) {
            Err(e) => r == Err::<ParsedCommand, ParseError>(e),
            Ok(stage) => r matches Ok(c) && c@ == seq![stage] && c.piped_command is None,
        },
{
    let (start, end) = trim_bounds(text);
    let stage = copy_range(text, start, end);
    let tokens = read_quoted_chars(&stage);
    ParsedCommand::parse_terms(&tokens)
}

/// The command written in the line `chars`.
fn parse_chars(chars: &Vec<char>) -> (r: Result<Option<ParsedCommand>, ParseError>)
    ensures
        parsed_as(r, parse_line(chars@)),
    decreases chars.len(),
{
    let (start, end) = trim_bounds(chars);
    if start == end {
        return Ok(None);
    }
    match find_pipe(chars) {
        None => match parse_stage_chars(chars) {
            Err(e) => Err(e),
            Ok(c) => Ok(Some(c)),
        },
        Some(p) => {
            let head_text = copy_range(chars, 0, p);
            match parse_stage_chars(&head_text) {
                Err(e) => Err(e),
                Ok(mut head) => {
                    let tail_text = copy_range(chars, p + 1, chars.len());
                    match parse_chars(&tail_text) {
                        Err(e) => Err(e),
                        Ok(None) => Ok(Some(head)),
                        Ok(Some(tail)) => {
                            head.piped_command = Some(Box::new(tail));
                            proof {
                                reveal_with_fuel(chain_of, 2);
                            }
                            Ok(Some(head))
                        },
                    }
                },
            }
        },
    }
}

impl ParsedCommand {
    /// The tokens of `input`, as `read_quoted_chars` gives them.
    pub fn read_quoted(input: &str) -> (result: Vec<String>)
        ensures
            result.deep_view() == tokens_of(input@),
            all_nonempty(result.deep_view()),
    {
        let chars = to_chars(input);
        read_quoted_chars(&chars)
    }

    /// Splits tokens into command, arguments and redirections. Fails with
    /// `MissingFilename` when an operator is the last token, and with `NoCommand`
    /// when no word is left for the command.
    pub fn parse_terms(terms: &Vec<String>) -> (r: Result<ParsedCommand, ParseError>)
        ensures
            match stage_of(terms.deep_view()) {
                Err(e) => r == Err::<ParsedCommand, ParseError>(e),
                Ok(stage) => r matches Ok(c) && c@ == seq![stage] && c.piped_command is None,
            },
    {
        let ghost tokens = terms.deep_view();
        let mut words: Vec<String> = Vec::new();
        let mut stdout_redirect: Option<Redirect> = None;
        let mut stderr_redirect: Option<Redirect> = None;
        let mut idx: usize = 0;
        assert(words.deep_view() =~= Seq::<Seq<char>>::empty());
        while idx < terms.len()
            invariant
                idx <= terms.len(),
                tokens == terms.deep_view(),
                segment_from(
                    tokens,
                    idx as int,
                    Segments {
                        words: words.deep_view(),
                        stdout: redirect_view(stdout_redirect),
                        stderr: redirect_view(stderr_redirect),
                    },
                ) == segment_from(
                    tokens,
                    0,
                    Segments { words: Seq::empty(), stdout: None, stderr: None },
                ),
            decreases terms.len() - idx,
        {
            match classify(terms[idx].as_str()) {
                None => {
                    let ghost before = words.deep_view();
                    words.push(terms[idx].clone());
                    assert(words.deep_view() =~= before.push(tokens[idx as int]));
                    idx = idx + 1;
                },
                Some(op) => {
                    if idx + 1 >= terms.len() {
                        return Err(ParseError::MissingFilename(op));
                    }
                    let filename = terms[idx + 1].clone();
                    match op {
                        RedirectOp::Stdout => {
                            stdout_redirect = Some(Redirect { filename, should_append: false });
                        },
                        RedirectOp::StdoutAppend => {
                            stdout_redirect = Some(Redirect { filename, should_append: true });
                        },
                        RedirectOp::Stderr => {
                            stderr_redirect = Some(Redirect { filename, should_append: false });
                        },
                        RedirectOp::StderrAppend => {
                            stderr_redirect = Some(Redirect { filename, should_append: true });
                        },
                    }
                    idx = idx + 2;
                },
            }
        }
        if words.len() == 0 {
            return Err(ParseError::NoCommand);
        }
        let command = words.remove(0);
        let c = ParsedCommand {
            command,
            args: words,
            stdout_redirect,
            stderr_redirect,
            piped_command: None,
        };
        proof {
            reveal_with_fuel(chain_of, 2);
            let seg = segment_from(
                tokens,
                0,
                Segments { words: Seq::empty(), stdout: None, stderr: None },
            )->Ok_0;
            assert(seg.words.skip(1) =~= c.args.deep_view());
        }
        Ok(c)
    }

    /// Parses one input line into a command, or a chain of commands joined by
    /// `|`. A line of nothing but whitespace is no command and no error.
    pub fn parse_command(input: &str) -> (r: Result<Option<ParsedCommand>, ParseError>)
        ensures
            parsed_as(r, parse_line(input@)),
            crate::text::all_white_space(input@) ==> r == Ok::<Option<ParsedCommand>, ParseError>(
                None,
            ),
            r matches Ok(Some(c)) ==> c.command@.len() > 0 && forall|k: int|
                0 <= k < c@.len() ==> (#[trigger] c@[k]).command.len() > 0,
    {
        let chars = to_chars(input);
        proof {
            crate::text::lemma_trimmed_ends(input@);
        }
        let r = parse_chars(&chars);
        proof {
            lemma_parsed_command_nonempty(input@);
            if let Ok(Some(c)) = &r {
                reveal_with_fuel(chain_of, 1);
                assert(c@[0] == c.head());
            }
        }
        r
    }
}

/// `c` means nothing to the lexer outside quotes: it is no space, quote or
/// backslash and starts no operator.
pub open spec fn is_ordinary(c: char) -> bool {
    c != ' ' && c != '\'' && c != '"' && c != '\\' && c != '>'
}

/// `c` means nothing to the lexer inside the quotes of `mode`.
pub open spec fn is_literal_in(mode: Mode, c: char) -> bool {
    match mode {
        Mode::Unquoted => is_ordinary(c),
        Mode::Single => c != '\'',
        Mode::Double => c != '"' && c != '\\',
    }
}

/// A stretch of characters that mean nothing to the lexer in its mode joins
/// the token being read, unchanged. Outside quotes the stretch must not
/// stand before a `>`, with which its last character could make an operator.
pub proof fn lemma_lex_literal_stretch(
    x: Seq<char>,
    i: int,
    end: int,
    mode: Mode,
    current: Seq<char>,
    tokens: Seq<Seq<char>>,
)
    requires
        0 <= i <= end <= x.len(),
        forall|k: int| i <= k < end ==> is_literal_in(mode, #[trigger] x[k]),
        mode is Unquoted && end < x.len() ==> x[end] != '>',
    ensures
        lex_from(
            x,
            i,
            LexState { quoting: Quoting { mode, escaped: false }, current, tokens },
        ) == lex_from(
            x,
            end,
            LexState {
                quoting: Quoting { mode, escaped: false },
                current: current + x.subrange(i, end),
                tokens,
            },
        ),
    decreases end - i,
{
    if i < end {
        lemma_operator_len_at(x, i);
        lemma_lex_literal_stretch(x, i + 1, end, mode, current.push(x[i]), tokens);
        assert(current.push(x[i]) + x.subrange(i + 1, end) =~= current + x.subrange(i, end));
    }
}

/// A word of characters that mean nothing to the lexer is one token.
pub proof fn lemma_plain_word(word: Seq<char>)
    requires
        word.len() > 0,
        forall|k: int| 0 <= k < word.len() ==> is_ordinary(#[trigger] word[k]),
    ensures
        tokens_of(word) == seq![word],
{
    lemma_lex_literal_stretch(
        word,
        0,
        word.len() as int,
        Mode::Unquoted,
        Seq::empty(),
        Seq::empty(),
    );
    assert(Seq::<char>::empty() + word.subrange(0, word.len() as int) =~= word);
}

/// What stands between two quotes of one kind is one token, kept as it is,
/// where it holds nothing that means something inside those quotes; and no
/// token at all where it is empty.
pub proof fn lemma_quoted(quote: char, inner: Seq<char>)
    requires
        quote == '\'' || quote == '"',
        forall|k: int|
            0 <= k < inner.len() ==> is_literal_in(
                if quote == '\'' {
                    Mode::Single
                } else {
                    Mode::Double
                },
                #[trigger] inner[k],
            ),
    ensures
        tokens_of(seq![quote] + inner + seq![quote]) == (if inner.len() > 0 {
            seq![inner]
        } else {
            Seq::<Seq<char>>::empty()
        }),
{
    let mode = if quote == '\'' {
        Mode::Single
    } else {
        Mode::Double
    };
    let x = seq![quote] + inner + seq![quote];
    let end: int = inner.len() as int + 1;
    let none = Seq::<Seq<char>>::empty();
    lemma_operator_len_at(x, 0);
    assert forall|k: int| 1 <= k < end implies is_literal_in(mode, #[trigger] x[k]) by {}
    lemma_lex_literal_stretch(x, 1, end, mode, Seq::empty(), none);
    assert(Seq::<char>::empty() + x.subrange(1, end) =~= inner);
    let full = LexState { quoting: Quoting { mode, escaped: false }, current: inner, tokens: none };
    let closed = lex_char(full, quote);
    assert(lex_from(x, end + 1, closed) == flushed(closed));
}

/// Two single-quoted pieces that touch make one token: the first piece
/// followed by the second.
pub proof fn lemma_adjacent_quotes(a: Seq<char>, b: Seq<char>)
    requires
        a.len() + b.len() > 0,
        forall|k: int| 0 <= k < a.len() ==> #[trigger] a[k] != '\'',
        forall|k: int| 0 <= k < b.len() ==> #[trigger] b[k] != '\'',
    ensures
        tokens_of(seq!['\''] + a + seq!['\'', '\''] + b + seq!['\'']) == seq![a + b],
{
    let x = seq!['\''] + a + seq!['\'', '\''] + b + seq!['\''];
    let n = a.len() as int;
    let m = b.len() as int;
    let none = Seq::<Seq<char>>::empty();
    let single = Quoting { mode: Mode::Single, escaped: false };
    let start = LexState { quoting: plain(), current: Seq::empty(), tokens: none };
    assert(x.len() == n + m + 4);
    assert(x[0] == '\'' && x[n + 1] == '\'' && x[n + 2] == '\'' && x[n + m + 3] == '\'');
    assert forall|k: int| 1 <= k < n + 1 implies is_literal_in(Mode::Single, #[trigger] x[k]) by {
        assert(x[k] == a[k - 1]);
    }
    assert forall|k: int| n + 3 <= k < n + m + 3 implies is_literal_in(
        Mode::Single,
        #[trigger] x[k],
    ) by {
        assert(x[k] == b[k - n - 3]);
    }
    lemma_operator_len_at(x, 0);
    let opened = LexState { quoting: single, current: Seq::empty(), tokens: none };
    assert(lex_from(x, 0, start) == lex_from(x, 1, opened));
    lemma_lex_literal_stretch(x, 1, n + 1, Mode::Single, Seq::empty(), none);
    assert(Seq::<char>::empty() + x.subrange(1, n + 1) =~= a);
    let first = LexState { quoting: single, current: a, tokens: none };
    let between = LexState { quoting: plain(), current: a, tokens: none };
    assert(lex_char(first, '\'') == between);
    assert(lex_from(x, n + 1, first) == lex_from(x, n + 2, between));
    lemma_operator_len_at(x, n + 2);
    assert(lex_char(between, '\'') == first);
    assert(lex_from(x, n + 2, between) == lex_from(x, n + 3, first));
    lemma_lex_literal_stretch(x, n + 3, n + m + 3, Mode::Single, a, none);
    assert(x.subrange(n + 3, n + m + 3) =~= b);
    let second = LexState { quoting: single, current: a + b, tokens: none };
    let closed = LexState { quoting: plain(), current: a + b, tokens: none };
    assert(lex_char(second, '\'') == closed);
    assert(lex_from(x, n + m + 3, second) == lex_from(x, n + m + 4, closed));
    assert(lex_from(x, n + m + 4, closed) == flushed(closed));
    assert(none.push(a + b) =~= seq![a + b]);
}

/// A redirection reads the same with or without a space between the
/// operator `>` and the filename: a word, a space, the operator and a word
/// are three tokens either way.
pub proof fn lemma_redirect_without_space(command: Seq<char>, filename: Seq<char>)
    requires
        command.len() > 0,
        filename.len() > 0,
        forall|k: int| 0 <= k < command.len() ==> is_ordinary(#[trigger] command[k]),
        forall|k: int| 0 <= k < filename.len() ==> is_ordinary(#[trigger] filename[k]),
    ensures
        tokens_of(command + seq![' ', '>'] + filename) == seq![command, seq!['>'], filename],
        tokens_of(command + seq![' ', '>', ' '] + filename) == seq![command, seq!['>'], filename],
{
    lemma_redirect_tokens(command, filename, false);
    lemma_redirect_tokens(command, filename, true);
}

/// The tokens of a word, a space, `>`, a space or none, and a word.
proof fn lemma_redirect_tokens(command: Seq<char>, filename: Seq<char>, spaced: bool)
    requires
        command.len() > 0,
        filename.len() > 0,
        forall|k: int| 0 <= k < command.len() ==> is_ordinary(#[trigger] command[k]),
        forall|k: int| 0 <= k < filename.len() ==> is_ordinary(#[trigger] filename[k]),
    ensures
        tokens_of(
            command + (if spaced {
                seq![' ', '>', ' ']
            } else {
                seq![' ', '>']
            }) + filename,
        ) == seq![command, seq!['>'], filename],
{
    let middle = if spaced {
        seq![' ', '>', ' ']
    } else {
        seq![' ', '>']
    };
    let x = command + middle + filename;
    let n = command.len() as int;
    let from = n + middle.len();
    let none = Seq::<Seq<char>>::empty();
    let one = seq![command];
    let two = seq![command, seq!['>']];
    assert(x[n] == ' ' && x[n + 1] == '>');
    assert forall|k: int| 0 <= k < n implies is_literal_in(Mode::Unquoted, #[trigger] x[k]) by {
        assert(x[k] == command[k]);
    }
    assert forall|k: int| from <= k < x.len() implies is_literal_in(
        Mode::Unquoted,
        #[trigger] x[k],
    ) by {
        assert(x[k] == filename[k - from]);
    }
    lemma_lex_literal_stretch(x, 0, n, Mode::Unquoted, Seq::empty(), none);
    assert(Seq::<char>::empty() + x.subrange(0, n) =~= command);
    let word = LexState { quoting: plain(), current: command, tokens: none };
    let after_word = LexState { quoting: plain(), current: Seq::empty(), tokens: one };
    lemma_operator_len_at(x, n);
    assert(flushed(word) =~= one);
    assert(lex_char(word, ' ') == after_word);
    assert(lex_from(x, n, word) == lex_from(x, n + 1, after_word));
    lemma_operator_len_at(x, n + 1);
    assert(x[n + 2] != '>') by {
        if spaced {
            assert(x[n + 2] == ' ');
        } else {
            assert(x[n + 2] == filename[0]);
            assert(is_ordinary(filename[0]));
        }
    }
    assert(operator_len_at(x, n + 1) == 1);
    assert(x.subrange(n + 1, n + 2) =~= seq!['>']);
    assert(flushed(after_word).push(seq!['>']) =~= two);
    let after_operator = LexState { quoting: plain(), current: Seq::empty(), tokens: two };
    assert(lex_from(x, n + 1, after_word) == lex_from(x, n + 2, after_operator));
    if spaced {
        lemma_operator_len_at(x, n + 2);
        assert(lex_char(after_operator, ' ') == after_operator);
        assert(lex_from(x, n + 2, after_operator) == lex_from(x, n + 3, after_operator));
    }
    lemma_lex_literal_stretch(x, from, x.len() as int, Mode::Unquoted, Seq::empty(), two);
    assert(Seq::<char>::empty() + x.subrange(from, x.len() as int) =~= filename);
    let last = LexState { quoting: plain(), current: filename, tokens: two };
    assert(lex_from(x, x.len() as int, last) == flushed(last));
    assert(two.push(filename) =~= seq![command, seq!['>'], filename]);
}

/// Inside double quotes a backslash escapes `"`, `\`, `$` and the backtick,
/// and stays, with what follows it, before any other character: before `n`
/// too, which makes no newline.
pub proof fn lemma_escape_in_double_quotes(c: char)
    ensures
        tokens_of(seq!['"', '\\', c, '"']) == (if c == '"' || c == '\\' || c == '$' || c == '`' {
            seq![seq![c]]
        } else {
            seq![seq!['\\', c]]
        }),
{
    let x = seq!['"', '\\', c, '"'];
    let none = Seq::<Seq<char>>::empty();
    let text = if c == '"' || c == '\\' || c == '$' || c == '`' {
        seq![c]
    } else {
        seq!['\\', c]
    };
    let double = Quoting { mode: Mode::Double, escaped: false };
    let start = LexState { quoting: plain(), current: Seq::empty(), tokens: none };
    let opened = LexState { quoting: double, current: Seq::empty(), tokens: none };
    let escaping = LexState {
        quoting: Quoting { mode: Mode::Double, escaped: true },
        current: Seq::empty(),
        tokens: none,
    };
    let escaped = LexState { quoting: double, current: text, tokens: none };
    let closed = LexState { quoting: plain(), current: text, tokens: none };
    lemma_operator_len_at(x, 0);
    assert(lex_from(x, 0, start) == lex_from(x, 1, opened));
    assert(lex_from(x, 1, opened) == lex_from(x, 2, escaping));
    assert(lex_char(escaping, c).current =~= text);
    assert(lex_from(x, 2, escaping) == lex_from(x, 3, escaped));
    assert(lex_from(x, 3, escaped) == lex_from(x, 4, closed));
    assert(lex_from(x, 4, closed) == flushed(closed));
    assert(none.push(text) =~= seq![text]);
}

/// A command with `1>>` and `2>>` has both streams redirected, both to be
/// added to their files, and no arguments.
pub proof fn lemma_both_streams_appended(
    command: Seq<char>,
    stdout_file: Seq<char>,
    stderr_file: Seq<char>,
)
    requires
        operator_kind(command) is None,
    ensures
        stage_of(
            seq![command, seq!['1', '>', '>'], stdout_file, seq!['2', '>', '>'], stderr_file],
        ) == Ok::<StageView, ParseError>(
            StageView {
                command,
                args: Seq::empty(),
                stdout_redirect: Some(RedirectView { filename: stdout_file, should_append: true }),
                stderr_redirect: Some(RedirectView { filename: stderr_file, should_append: true }),
            },
        ),
{
    let tokens = seq![command, seq!['1', '>', '>'], stdout_file, seq!['2', '>', '>'], stderr_file];
    reveal_with_fuel(segment_from, 5);
    assert(seq!['1', '>', '>'].len() == 3 && seq!['2', '>', '>'].len() == 3);
    assert(seq!['>'].len() == 1 && seq!['1', '>'].len() == 2 && seq!['2', '>'].len() == 2 && seq![
        '>',
        '>',
    ].len() == 2);
    assert(seq!['1', '>', '>'][0] == '1' && seq!['2', '>', '>'][0] == '2');
    assert(operator_kind(tokens[1]) == Some(RedirectOp::StdoutAppend));
    assert(operator_kind(tokens[3]) == Some(RedirectOp::StderrAppend));
    let words = Seq::<Seq<char>>::empty().push(command);
    assert(words.skip(1) =~= Seq::<Seq<char>>::empty());
}

} // verus!
