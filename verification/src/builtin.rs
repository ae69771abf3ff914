//! The commands that the shell carries out itself: which they are, what they
//! write, and what the ones that write nothing ask the caller to do.

use crate::args::{option_value, read_option};
use crate::command::ParsedCommand;
use crate::history::{shown, History};
use crate::text::{
    first_word, first_word_bounds, from_chars, i32_of, join_chars, joined, parse_i32,
    parse_usize, push_str_chars, to_chars, trim_bounds, trimmed, usize_of,
};
use vstd::prelude::*;
use vstd::string::{StrSliceExecFns, StringExecFns};
use vstd::utf8::encode_utf8;

verus! {

/// What a command line runs: one of the commands that the shell carries out
/// itself, or a program.
#[derive(Clone, Copy, Debug, PartialEq, Eq, Structural)]
pub enum ShellCommand {
    Cd,
    Echo,
    Exit,
    History,
    Pwd,
    Type,
    Exec,
}

/// The builtin of that name, if there is one.
pub open spec fn builtin_named(name: Seq<char>) -> Option<ShellCommand> {
    if name == "echo"@ {
        Some(ShellCommand::Echo)
    } else if name == "cd"@ {
        Some(ShellCommand::Cd)
    } else if name == "pwd"@ {
        Some(ShellCommand::Pwd)
    } else if name == "history"@ {
        Some(ShellCommand::History)
    } else if name == "exit"@ {
        Some(ShellCommand::Exit)
    } else if name == "type"@ {
        Some(ShellCommand::Type)
    } else {
        None
    }
}

/// `name` is one of `echo`, `cd`, `pwd`, `history`, `exit`, `type`.
pub open spec fn is_builtin_name(name: Seq<char>) -> bool {
    builtin_named(name) is Some
}

/// The builtin of that name, if there is one.
pub fn lookup_builtin(name: &str) -> (r: Option<ShellCommand>)
    ensures
        r == builtin_named(name@),
{
    if name.eq("echo") {
        Some(ShellCommand::Echo)
    } else if name.eq("cd") {
        Some(ShellCommand::Cd)
    } else if name.eq("pwd") {
        Some(ShellCommand::Pwd)
    } else if name.eq("history") {
        Some(ShellCommand::History)
    } else if name.eq("exit") {
        Some(ShellCommand::Exit)
    } else if name.eq("type") {
        Some(ShellCommand::Type)
    } else {
        None
    }
}

/// Whether `command` names a builtin.
pub fn is_builtin(command: &str) -> (r: bool)
    ensures
        r == is_builtin_name(command@),
{
    lookup_builtin(command).is_some()
}

/// The names of the builtins.
pub fn builtin_names() -> (r: Vec<&'static str>)
    ensures
        r@.len() == 6,
        forall|i: int| 0 <= i < r@.len() ==> is_builtin_name(#[trigger] r@[i]@),
        forall|name: Seq<char>| is_builtin_name(name) ==> r.deep_view().contains(name),
{
    let mut names: Vec<&'static str> = Vec::new();
    names.push("echo");
    names.push("cd");
    names.push("pwd");
    names.push("history");
    names.push("exit");
    names.push("type");
    proof {
        let all = names.deep_view();
        assert(all[0] == "echo"@ && all[1] == "cd"@ && all[2] == "pwd"@ && all[3] == "history"@
            && all[4] == "exit"@ && all[5] == "type"@);
    }
    names
}

/// What the shell says of a command that is neither a builtin nor found on
/// the search path.
pub fn not_found_message(name: &str) -> (r: String)
    ensures
        r@ == trimmed(name@) + ": command not found"@,
{
    let chars = to_chars(name);
    let (start, end) = trim_bounds(&chars);
    let mut message = crate::text::from_range(&chars, start, end);
    message.append(": command not found");
    message
}

/// What runs a parsed line: a chain of several stages always goes to the
/// pipeline, a single stage to the builtin of its name or else to the
/// pipeline as a program.
pub open spec fn dispatched(stages: Seq<crate::command::StageView>) -> ShellCommand {
    if stages.len() != 1 {
        ShellCommand::Exec
    } else {
        match builtin_named(stages[0].command) {
            Some(builtin) => builtin,
            None => ShellCommand::Exec,
        }
    }
}

/// What runs the parsed line `command`.
pub fn dispatch(command: &ParsedCommand) -> (r: ShellCommand)
    ensures
        r == dispatched(command@),
{
    proof {
        reveal_with_fuel(crate::command::chain_of, 2);
    }
    if command.piped_command.is_some() {
        ShellCommand::Exec
    } else {
        match lookup_builtin(command.command.as_str()) {
            Some(builtin) => builtin,
            None => ShellCommand::Exec,
        }
    }
}

/// What `echo` writes: its arguments with one space between each two, then
/// a newline.
pub open spec fn echo_text(args: Seq<Seq<char>>) -> Seq<char> {
    joined(args, seq![' ']).push('\n')
}

/// The output of `echo`.
pub fn echo_output(args: &[&str]) -> (r: Vec<u8>)
    ensures
        r@ == encode_utf8(echo_text(args.deep_view())),
{
    let mut text = join_chars(args, ' ');
    text.push('\n');
    from_chars(&text).as_str().as_bytes_vec()
}

/// The exit code that the arguments of `exit` ask for: the first word of the
/// arguments, if it is an integer in the range of `i32`, and 0 otherwise.
pub open spec fn exit_code_of(args: Seq<Seq<char>>) -> i32 {
    match first_word(joined(args, seq![' '])) {
        Some(word) => match i32_of(word) {
            Some(code) => code,
            None => 0i32,
        },
        None => 0i32,
    }
}

/// The exit code that the arguments of `exit` ask for.
pub fn parse_exit_code(args: &[&str]) -> (r: i32)
    ensures
        r == exit_code_of(args.deep_view()),
{
    let text = join_chars(args, ' ');
    match first_word_bounds(&text) {
        Some((start, end)) => {
            let word = crate::text::copy_range(&text, start, end);
            match parse_i32(&word) {
                Some(code) => code,
                None => 0,
            }
        },
        None => 0,
    }
}

/// Whether `exit` ends the program, and with what code: a negative code
/// leaves the shell running.
pub fn exit_request(args: &[&str]) -> (r: Option<i32>)
    ensures
        exit_code_of(args.deep_view()) >= 0 ==> r == Some(exit_code_of(args.deep_view())),
        exit_code_of(args.deep_view()) < 0 ==> r is None,
{
    let code = parse_exit_code(args);
    if code >= 0 {
        Some(code)
    } else {
        None
    }
}

/// What `type` says of `name`, where `found` is the path of the program of
/// that name, if the search path has one.
pub open spec fn type_text(name: Seq<char>, found: Option<Seq<char>>) -> Seq<char> {
    if is_builtin_name(name) {
        trimmed(name) + " is a shell builtin\n"@
    } else {
        match found {
            Some(path) => trimmed(name) + " is "@ + path + seq!['\n'],
            None => trimmed(name) + ": not found\n"@,
        }
    }
}

/// The name that `type` looks for on the search path: its first argument,
/// trimmed; `None` without an argument.
pub fn type_subject(args: &[&str]) -> (r: Option<String>)
    ensures
        args@.len() == 0 ==> r is None,
        args@.len() > 0 ==> (r matches Some(s) && s@ == trimmed(args@[0]@)),
{
    if args.len() == 0 {
        None
    } else {
        let chars = to_chars(args[0]);
        let (start, end) = trim_bounds(&chars);
        Some(crate::text::from_range(&chars, start, end))
    }
}

/// The output of `type`: nothing without an argument, else what `type_text`
/// says of the first one. `found` is what the search path has for
/// `type_subject(args)`.
pub fn type_output(args: &[&str], found: Option<&str>) -> (r: Vec<u8>)
    ensures
        args@.len() == 0 ==> r@.len() == 0,
        args@.len() > 0 ==> r@ == encode_utf8(
            type_text(
                args@[0]@,
                match found {
                    Some(p) => Some(p@),
                    None => None,
                },
            ),
        ),
{
    if args.len() == 0 {
        return Vec::new();
    }
    let chars = to_chars(args[0]);
    let (start, end) = trim_bounds(&chars);
    let mut text = crate::text::copy_range(&chars, start, end);
    if is_builtin(args[0]) {
        push_str_chars(&mut text, " is a shell builtin\n");
    } else {
        match found {
            Some(path) => {
                push_str_chars(&mut text, " is ");
                push_str_chars(&mut text, path);
                text.push('\n');
                assert(text@ =~= trimmed(args@[0]@) + " is "@ + path@ + seq!['\n']);
            },
            None => {
                push_str_chars(&mut text, ": not found\n");
            },
        }
    }
    from_chars(&text).as_str().as_bytes_vec()
}

/// What `history` writes: the whole log without an argument; with a first
/// argument that, trimmed, is a number, that many of the most recent entries;
/// with any other first argument nothing.
pub open spec fn history_text(args: Seq<Seq<char>>, entries: Seq<Seq<char>>) -> Seq<char> {
    if args.len() == 0 {
        shown(entries, None)
    } else {
        match usize_of(trimmed(args[0])) {
            Some(limit) => shown(entries, Some(limit)),
            None => Seq::empty(),
        }
    }
}

/// The output of `history`.
pub fn history_output(args: &[&str], history: &History) -> (r: Vec<u8>)
    ensures
        r@ == encode_utf8(history_text(args.deep_view(), history@)),
{
    if args.len() == 0 {
        return history.show(None).as_str().as_bytes_vec();
    }
    let chars = to_chars(args[0]);
    let (start, end) = trim_bounds(&chars);
    let word = crate::text::copy_range(&chars, start, end);
    match parse_usize(&word) {
        Some(limit) => history.show(Some(limit)).as_str().as_bytes_vec(),
        None => {
            let empty = String::new();
            empty.as_str().as_bytes_vec()
        },
    }
}

/// What the `history` builtin is asked to do.
#[derive(Debug, PartialEq)]
pub enum HistoryAction {
    /// `-r <file>`: add the lines of the file to the log.
    Read(String),
    /// `-w <file>`: write the log to the file.
    Write(String),
    /// `-a <file>`: add to the file the entries that it does not hold yet.
    Append(String),
    /// Print this listing.
    Show(Vec<u8>),
}

/// `r` stands for `-r`, `w` for `-w`, `a` for `-a`, in this order of
/// precedence; a flag without a value does not count.
pub fn history_action(args: &[&str], history: &History) -> (r: HistoryAction)
    ensures
        match option_value(seq!['r'], args.deep_view()) {
            Some(path) => r matches HistoryAction::Read(p) && p@ == path,
            None => match option_value(seq!['w'], args.deep_view()) {
                Some(path) => r matches HistoryAction::Write(p) && p@ == path,
                None => match option_value(seq!['a'], args.deep_view()) {
                    Some(path) => r matches HistoryAction::Append(p) && p@ == path,
                    None => r matches HistoryAction::Show(bytes) && bytes@ == encode_utf8(
                        history_text(args.deep_view(), history@),
                    ),
                },
            },
        },
{
    proof {
        reveal_strlit("r");
        reveal_strlit("w");
        reveal_strlit("a");
        assert("r"@ =~= seq!['r']);
        assert("w"@ =~= seq!['w']);
        assert("a"@ =~= seq!['a']);
    }
    match read_option("r", args) {
        Some(path) => HistoryAction::Read(path),
        None => match read_option("w", args) {
            Some(path) => HistoryAction::Write(path),
            None => match read_option("a", args) {
                Some(path) => HistoryAction::Append(path),
                None => HistoryAction::Show(history_output(args, history)),
            },
        },
    }
}

/// Why a builtin has no output.
#[derive(Clone, Copy, Debug, PartialEq, Eq, Structural)]
pub enum BuiltinError {
    /// The command is no builtin.
    UnknownBuiltin,
    /// `pwd` was run where the current directory cannot be told.
    NoCurrentDirectory,
}

impl BuiltinError {
    /// What to say of the builtin `command` that failed with this error.
    pub fn message(&self, command: &str) -> (r: String)
        ensures
            r@ == (match self {
                BuiltinError::UnknownBuiltin => "Unknown builtin command: "@ + command@,
                BuiltinError::NoCurrentDirectory => "Failed to get current directory"@,
            }),
    {
        match self {
            BuiltinError::UnknownBuiltin => {
                let mut message = String::from_str("Unknown builtin command: ");
                message.append(command);
                message
            },
            BuiltinError::NoCurrentDirectory => String::from_str(
                "Failed to get current directory",
            ),
        }
    }
}

/// What a builtin needs to know of the world around the shell.
pub struct Surroundings<'a> {
    /// The current directory, if it can be told.
    pub current_directory: Option<&'a str>,
    /// What the search path has for `type_subject` of the arguments.
    pub found_executable: Option<&'a str>,
}

/// The bytes that a builtin writes to its standard output. `cd` and `exit`
/// write nothing.
pub fn generate_output(
    command: &str,
    args: &[&str],
    history: &History,
    around: &Surroundings,
) -> (r: Result<Vec<u8>, BuiltinError>)
    ensures
        match builtin_named(command@) {
            None => r == Err::<Vec<u8>, BuiltinError>(BuiltinError::UnknownBuiltin),
            Some(ShellCommand::Echo) => r matches Ok(bytes) && bytes@ == encode_utf8(
                echo_text(args.deep_view()),
            ),
            Some(ShellCommand::Pwd) => match around.current_directory {
                Some(directory) => r matches Ok(bytes) && bytes@ == encode_utf8(
                    directory@.push('\n'),
                ),
                None => r == Err::<Vec<u8>, BuiltinError>(BuiltinError::NoCurrentDirectory),
            },
            Some(ShellCommand::Type) => r matches Ok(bytes) && (args@.len() == 0 ==> bytes@.len()
                == 0) && (args@.len() > 0 ==> bytes@ == encode_utf8(
                type_text(
                    args@[0]@,
                    match around.found_executable {
                        Some(p) => Some(p@),
                        None => None,
                    },
                ),
            )),
            Some(ShellCommand::History) => r matches Ok(bytes) && bytes@ == encode_utf8(
                history_text(args.deep_view(), history@),
            ),
            Some(_) => r matches Ok(bytes) && bytes@.len() == 0,
        },
{
    match lookup_builtin(command) {
        None => Err(BuiltinError::UnknownBuiltin),
        Some(ShellCommand::Echo) => Ok(echo_output(args)),
        Some(ShellCommand::Pwd) => match around.current_directory {
            Some(directory) => {
                let mut text = to_chars(directory);
                text.push('\n');
                Ok(from_chars(&text).as_str().as_bytes_vec())
            },
            None => Err(BuiltinError::NoCurrentDirectory),
        },
        Some(ShellCommand::Type) => Ok(type_output(args, around.found_executable)),
        Some(ShellCommand::History) => Ok(history_output(args, history)),
        Some(_) => Ok(Vec::new()),
    }
}

} // verus!
