//! Where `cd` goes.

use crate::path::{join_path, path_joined, path_popped, pop_path};
use crate::text::{copy_range, from_chars, split_on, split_str, to_chars, trim_bounds, trimmed};
use vstd::prelude::*;
use vstd::string::StringExecFns;

verus! {

/// What one piece of a destination asks for.
#[derive(Clone, Copy, Debug, PartialEq, Eq, Structural)]
pub enum Step {
    /// `.`: stay.
    Stay,
    /// `..`: go to the parent directory.
    Up,
    /// An empty first piece, as before the `/` that starts the destination:
    /// start from the root.
    Root,
    /// `~` as the first piece: start from the home directory.
    Home,
    /// Any other piece, an empty one after the first too: go into it.
    Into,
}

/// What the piece `part` asks for; `first` tells whether it is the first
/// piece of the destination.
pub open spec fn step_of(part: Seq<char>, first: bool) -> Step {
    if part == "."@ {
        Step::Stay
    } else if part == ".."@ {
        Step::Up
    } else if first && part.len() == 0 {
        Step::Root
    } else if first && part == "~"@ {
        Step::Home
    } else {
        Step::Into
    }
}

/// What the piece `part` asks for.
pub fn classify_part(part: &str, first: bool) -> (r: Step)
    ensures
        r == step_of(part@, first),
{
    if part.eq(".") {
        Step::Stay
    } else if part.eq("..") {
        Step::Up
    } else if first && part.is_empty() {
        Step::Root
    } else if first && part.eq("~") {
        Step::Home
    } else {
        Step::Into
    }
}

/// Where one piece of the destination leads from `current`.
pub open spec fn stepped(
    current: Seq<char>,
    home: Seq<char>,
    part: Seq<char>,
    first: bool,
) -> Seq<char> {
    match step_of(part, first) {
        Step::Stay => current,
        Step::Up => path_popped(current),
        Step::Root => "/"@,
        Step::Home => home,
        Step::Into => path_joined(current, part),
    }
}

/// Where the pieces from position `i` on lead from `current`.
pub open spec fn walked(parts: Seq<Seq<char>>, i: int, current: Seq<char>, home: Seq<char>) -> Seq<
    char,
>
    decreases parts.len() - i,
{
    if i < 0 || i >= parts.len() {
        current
    } else {
        walked(parts, i + 1, stepped(current, home, parts[i], i == 0), home)
    }
}

/// The directory that `cd` goes to: the home directory without an argument,
/// else where the pieces of the first argument, trimmed and cut at each `/`,
/// lead from the current directory.
pub open spec fn destination_of(
    args: Seq<Seq<char>>,
    home: Seq<char>,
    current_directory: Seq<char>,
) -> Seq<char> {
    if args.len() == 0 {
        home
    } else {
        walked(split_on(trimmed(args[0]), '/'), 0, current_directory, home)
    }
}

/// The directory that `cd` with the arguments `args` goes to, where `home`
/// is the home directory and `current_directory` the current one.
pub fn determine_destination(args: &[&str], home: &str, current_directory: &str) -> (r: String)
    ensures
        r@ == destination_of(args.deep_view(), home@, current_directory@),
{
    if args.len() == 0 {
        return String::from_str(home);
    }
    let chars = to_chars(args[0]);
    let (start, end) = trim_bounds(&chars);
    let trimmed_chars = copy_range(&chars, start, end);
    let destination = from_chars(&trimmed_chars);
    let parts = split_str(destination.as_str(), '/');
    let ghost pieces = parts.deep_view();
    let mut current = String::from_str(current_directory);
    let mut i: usize = 0;
    while i < parts.len()
        invariant
            i <= parts.len(),
            pieces == parts.deep_view(),
            walked(pieces, i as int, current@, home@) == walked(
                pieces,
                0,
                current_directory@,
                home@,
            ),
        decreases parts.len() - i,
    {
        let part = parts[i].as_str();
        match classify_part(part, i == 0) {
            Step::Stay => {},
            Step::Up => {
                current = pop_path(current.as_str());
            },
            Step::Root => {
                current = String::from_str("/");
            },
            Step::Home => {
                current = String::from_str(home);
            },
            Step::Into => {
                current = join_path(current.as_str(), part);
            },
        }
        i = i + 1;
    }
    current
}

/// What `cd` says when it cannot go to `destination`.
pub open spec fn failure_text(destination: Seq<char>) -> Seq<char> {
    "cd: "@ + destination + ": No such file or directory"@
}

/// What `cd` says when it cannot go to `destination`.
pub fn failure_message(destination: &str) -> (r: String)
    ensures
        r@ == failure_text(destination@),
{
    let mut message = String::from_str("cd: ");
    message.append(destination);
    message.append(": No such file or directory");
    message
}

} // verus!
