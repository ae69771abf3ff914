//! Reading the value of a one-letter option from a list of arguments.

use crate::text::{from_chars, push_str_chars};
use vstd::prelude::*;

verus! {

/// The flag of a one-letter option: a dash, then the option's name.
pub open spec fn flag_of(name: Seq<char>) -> Seq<char> {
    seq!['-'] + name
}

/// The position of the first of `args` from `i` on that equals `flag`, or the
/// length of `args` where none does.
pub open spec fn position_from(args: Seq<Seq<char>>, flag: Seq<char>, i: int) -> int
    decreases args.len() - i,
{
    if i < 0 || i >= args.len() {
        args.len() as int
    } else if args[i] == flag {
        i
    } else {
        position_from(args, flag, i + 1)
    }
}

/// The value of the option `name`: the argument that follows the first
/// occurrence of its flag. `None` where the flag does not occur, or where its
/// first occurrence is the last argument.
pub open spec fn option_value(name: Seq<char>, args: Seq<Seq<char>>) -> Option<Seq<char>> {
    let at = position_from(args, flag_of(name), 0);
    if 0 <= at && at + 1 < args.len() {
        Some(args[at + 1])
    } else {
        None
    }
}

/// Reads the value of the option `-<option_short_name>` from `args`.
pub fn read_option(option_short_name: &str, args: &[&str]) -> (r: Option<String>)
    ensures
        match option_value(option_short_name@, args.deep_view()) {
            Some(value) => r matches Some(s) && s@ == value,
            None => r is None,
        },
{
    let ghost all = args.deep_view();
    let mut flag_chars: Vec<char> = Vec::new();
    flag_chars.push('-');
    push_str_chars(&mut flag_chars, option_short_name);
    let flag = from_chars(&flag_chars);
    let mut i: usize = 0;
    while i < args.len()
        invariant
            i <= args.len(),
            all == args.deep_view(),
            flag@ == flag_of(option_short_name@),
            position_from(all, flag@, i as int) == position_from(all, flag@, 0),
        decreases args.len() - i,
    {
        if args[i].eq(flag.as_str()) {
            if i + 1 < args.len() {
                return Some(args[i + 1].to_owned());
            } else {
                return None;
            }
        }
        i = i + 1;
    }
    None
}

} // verus!
