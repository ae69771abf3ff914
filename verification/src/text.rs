//! Texts as sequences of characters: whitespace and words, order, numbers in
//! decimal digits, and the few things about `String` and `char` that the
//! rest of the library takes on trust from the standard library.

use vstd::prelude::*;
use vstd::string::*;

verus! {

/// Whether a character has the Unicode `White_Space` property, as
/// `char::is_whitespace` reports it.
pub uninterp spec fn is_white_space(c: char) -> bool;

/// `char::is_whitespace` is a function of the character alone; its result is
/// the meaning of `is_white_space`. Nothing else is claimed of it.
pub assume_specification[ char::is_whitespace ](c: char) -> (b: bool)
    ensures
        b == is_white_space(c),
;

/// `String::push` appends the given character to the end of the string.
pub assume_specification[ String::push ](s: &mut String, ch: char)
    ensures
        final(s)@ == old(s)@.push(ch),
;

/// `String::pop` takes the last character off the string and returns it, or
/// returns `None` and leaves the string as it is where it is empty.
pub assume_specification[ String::pop ](s: &mut String) -> (r: Option<char>)
    ensures
        old(s)@.len() == 0 ==> r is None && final(s)@ == old(s)@,
        old(s)@.len() > 0 ==> r == Some(old(s)@.last()) && final(s)@ == old(s)@.drop_last(),
;

/// `str::eq` holds exactly when both slices hold the same characters.
pub assume_specification[ <str as PartialEq>::eq ](a: &str, b: &str) -> (r: bool)
    ensures
        r == (a@ == b@),
;

/// The text of a string that may be missing.
pub open spec fn text_of(s: Option<String>) -> Option<Seq<char>> {
    match s {
        Some(s) => Some(s@),
        None => None,
    }
}

/// The characters of a string slice, in order.
pub fn to_chars(s: &str) -> (v: Vec<char>)
    ensures
        v@ == s@,
{
    let mut v: Vec<char> = Vec::new();
    for c in it: s.chars()
        invariant
            v@ == it.seq().take(it.index() as int),
            it.seq() == s@,
    {
        v.push(c);
    }
    v
}

/// The string made of `v[from..to]`.
pub fn from_range(v: &Vec<char>, from: usize, to: usize) -> (s: String)
    requires
        from <= to <= v.len(),
    ensures
        s@ == v@.subrange(from as int, to as int),
{
    let mut s = String::new();
    let mut i: usize = from;
    while i < to
        invariant
            from <= i <= to <= v.len(),
            s@ == v@.subrange(from as int, i as int),
        decreases to - i,
    {
        s.push(v[i]);
        i = i + 1;
    }
    s
}

/// The string made of all of `v`.
pub fn from_chars(v: &Vec<char>) -> (s: String)
    ensures
        s@ == v@,
{
    let s = from_range(v, 0, v.len());
    s
}

/// Appends the characters of `text` to `v`.
pub fn push_str_chars(v: &mut Vec<char>, text: &str)
    ensures
        final(v)@ == old(v)@ + text@,
{
    let ghost before = v@;
    for c in it: text.chars()
        invariant
            v@ == before + it.seq().take(it.index() as int),
            it.seq() == text@,
    {
        v.push(c);
    }
}

/// How many characters at the start of `s` are whitespace (`white`), or are
/// not (`!white`), before the first of the other kind.
pub open spec fn leading_run(s: Seq<char>, white: bool) -> nat
    decreases s.len(),
{
    if s.len() > 0 && is_white_space(s[0]) == white {
        1 + leading_run(s.drop_first(), white)
    } else {
        0
    }
}

/// The same, counted from the end of `s`.
pub open spec fn trailing_run(s: Seq<char>, white: bool) -> nat
    decreases s.len(),
{
    if s.len() > 0 && is_white_space(s.last()) == white {
        1 + trailing_run(s.drop_last(), white)
    } else {
        0
    }
}

/// How many whitespace characters stand at the start of `s`.
pub open spec fn leading_ws(s: Seq<char>) -> nat {
    leading_run(s, true)
}

/// How many whitespace characters stand at the end of `s`.
pub open spec fn trailing_ws(s: Seq<char>) -> nat {
    trailing_run(s, true)
}

/// `s` without its leading whitespace.
pub open spec fn trimmed_start(s: Seq<char>) -> Seq<char> {
    s.skip(leading_ws(s) as int)
}

/// `s` without its trailing whitespace.
pub open spec fn trimmed_end(s: Seq<char>) -> Seq<char> {
    s.take(s.len() - trailing_ws(s))
}

/// `s` without its leading and trailing whitespace.
pub open spec fn trimmed(s: Seq<char>) -> Seq<char> {
    trimmed_end(trimmed_start(s))
}

/// Every character of `s` is whitespace.
pub open spec fn all_white_space(s: Seq<char>) -> bool {
    forall|i: int| 0 <= i < s.len() ==> is_white_space(#[trigger] s[i])
}

/// The first of the words of `s`, where words are what whitespace separates;
/// `None` where `s` holds only whitespace.
pub open spec fn first_word(s: Seq<char>) -> Option<Seq<char>> {
    let rest = trimmed_start(s);
    if rest.len() == 0 {
        None
    } else {
        Some(rest.take(leading_run(rest, false) as int))
    }
}

/// The last of the words of `s`; `None` where `s` holds only whitespace.
pub open spec fn last_word(s: Seq<char>) -> Option<Seq<char>> {
    let rest = trimmed_end(s);
    if rest.len() == 0 {
        None
    } else {
        Some(rest.skip(rest.len() - trailing_run(rest, false)))
    }
}

/// The leading run lies within the text, holds only characters of its kind,
/// and ends before a character of the other kind.
pub proof fn lemma_leading_run(s: Seq<char>, white: bool)
    ensures
        leading_run(s, white) <= s.len(),
        forall|i: int| 0 <= i < leading_run(s, white) ==> is_white_space(#[trigger] s[i]) == white,
        leading_run(s, white) < s.len() ==> is_white_space(s[leading_run(s, white) as int])
            != white,
    decreases s.len(),
{
    if s.len() > 0 && is_white_space(s[0]) == white {
        let t = s.drop_first();
        lemma_leading_run(t, white);
        assert forall|i: int| 0 <= i < leading_run(s, white) implies is_white_space(
            #[trigger] s[i],
        ) == white by {
            if i > 0 {
                assert(s[i] == t[i - 1]);
            }
        }
    }
}

/// The same for the trailing run.
pub proof fn lemma_trailing_run(s: Seq<char>, white: bool)
    ensures
        trailing_run(s, white) <= s.len(),
        forall|i: int|
            s.len() - trailing_run(s, white) <= i < s.len() ==> is_white_space(#[trigger] s[i])
                == white,
        trailing_run(s, white) < s.len() ==> is_white_space(
            s[s.len() - trailing_run(s, white) - 1],
        ) != white,
    decreases s.len(),
{
    if s.len() > 0 && is_white_space(s.last()) == white {
        let t = s.drop_last();
        lemma_trailing_run(t, white);
        assert forall|i: int| s.len() - trailing_run(s, white) <= i < s.len() implies is_white_space(
            #[trigger] s[i],
        ) == white by {
            if i < s.len() - 1 {
                assert(s[i] == t[i]);
            }
        }
        if trailing_run(s, white) < s.len() {
            assert(s[s.len() - trailing_run(s, white) - 1] == t[t.len() - trailing_run(t, white)
                - 1]);
        }
    }
}

/// A run of one kind at the start of `s` that is followed by a character of
/// the other kind, or by the end, is the whole leading run.
pub proof fn lemma_leading_run_is(s: Seq<char>, white: bool, n: int)
    requires
        0 <= n <= s.len(),
        forall|i: int| 0 <= i < n ==> is_white_space(#[trigger] s[i]) == white,
        n < s.len() ==> is_white_space(s[n]) != white,
    ensures
        leading_run(s, white) == n,
{
    lemma_leading_run(s, white);
}

/// The same for a run at the end of `s`.
pub proof fn lemma_trailing_run_is(s: Seq<char>, white: bool, n: int)
    requires
        0 <= n <= s.len(),
        forall|i: int| s.len() - n <= i < s.len() ==> is_white_space(#[trigger] s[i]) == white,
        n < s.len() ==> is_white_space(s[s.len() - n - 1]) != white,
    ensures
        trailing_run(s, white) == n,
{
    lemma_trailing_run(s, white);
}

/// Trimming a text that holds only whitespace leaves nothing.
pub proof fn lemma_trimmed_all_white_space(s: Seq<char>)
    requires
        all_white_space(s),
    ensures
        trimmed(s).len() == 0,
{
    lemma_leading_run_is(s, true, s.len() as int);
}

/// What trimming leaves starts and ends with a character that is no
/// whitespace, and nothing is left exactly of a text of whitespace only.
pub proof fn lemma_trimmed_ends(s: Seq<char>)
    ensures
        trimmed(s).len() > 0 ==> !is_white_space(trimmed(s)[0]) && !is_white_space(
            trimmed(s).last(),
        ),
        trimmed(s).len() == 0 <==> all_white_space(s),
        trimmed(s) == s.subrange(
            leading_ws(s) as int,
            s.len() - trailing_ws(trimmed_start(s)),
        ),
{
    lemma_leading_run(s, true);
    let rest = trimmed_start(s);
    lemma_trailing_run(rest, true);
    if rest.len() > 0 {
        assert(trailing_ws(rest) < rest.len()) by {
            if trailing_ws(rest) == rest.len() {
                assert(is_white_space(rest[0]));
            }
        }
        assert(!all_white_space(s));
    }
}

/// The end of the leading run of `v[from..to]`.
pub fn forward_run(v: &Vec<char>, from: usize, to: usize, white: bool) -> (k: usize)
    requires
        from <= to <= v.len(),
    ensures
        from <= k <= to,
        k - from == leading_run(v@.subrange(from as int, to as int), white),
{
    let mut k: usize = from;
    while k < to && v[k].is_whitespace() == white
        invariant
            from <= k <= to <= v.len(),
            forall|i: int| from <= i < k ==> is_white_space(#[trigger] v@[i]) == white,
        decreases to - k,
    {
        k = k + 1;
    }
    proof {
        let s = v@.subrange(from as int, to as int);
        assert forall|i: int| 0 <= i < k - from implies is_white_space(#[trigger] s[i])
            == white by {}
        lemma_leading_run_is(s, white, k - from);
    }
    k
}

/// The start of the trailing run of `v[from..to]`.
pub fn backward_run(v: &Vec<char>, from: usize, to: usize, white: bool) -> (k: usize)
    requires
        from <= to <= v.len(),
    ensures
        from <= k <= to,
        to - k == trailing_run(v@.subrange(from as int, to as int), white),
{
    let mut k: usize = to;
    while k > from && v[k - 1].is_whitespace() == white
        invariant
            from <= k <= to <= v.len(),
            forall|i: int| k <= i < to ==> is_white_space(#[trigger] v@[i]) == white,
        decreases k,
    {
        k = k - 1;
    }
    proof {
        let s = v@.subrange(from as int, to as int);
        assert forall|i: int| s.len() - (to - k) <= i < s.len() implies is_white_space(
            #[trigger] s[i],
        ) == white by {}
        lemma_trailing_run_is(s, white, to - k);
    }
    k
}

/// The bounds of `v` without its leading and trailing whitespace:
/// `v[start..end]` is `trimmed(v)`.
pub fn trim_bounds(v: &Vec<char>) -> (r: (usize, usize))
    ensures
        r.0 <= r.1 <= v.len(),
        v@.subrange(r.0 as int, r.1 as int) == trimmed(v@),
{
    let n = v.len();
    let start = forward_run(v, 0, n, true);
    let end = backward_run(v, start, n, true);
    proof {
        assert(v@.subrange(0, n as int) =~= v@);
    }
    (start, end)
}

/// The bounds of the first word of `v`.
pub fn first_word_bounds(v: &Vec<char>) -> (r: Option<(usize, usize)>)
    ensures
        match first_word(v@) {
            None => r is None,
            Some(w) => r matches Some(b) && b.0 < b.1 <= v.len() && v@.subrange(
                b.0 as int,
                b.1 as int,
            ) == w,
        },
{
    let n = v.len();
    let start = forward_run(v, 0, n, true);
    proof {
        assert(v@.subrange(0, n as int) =~= v@);
    }
    if start == n {
        return None;
    }
    let end = forward_run(v, start, n, false);
    proof {
        lemma_leading_run(v@, true);
    }
    Some((start, end))
}

/// The bounds of the last word of `v`.
pub fn last_word_bounds(v: &Vec<char>) -> (r: Option<(usize, usize)>)
    ensures
        match last_word(v@) {
            None => r is None,
            Some(w) => r matches Some(b) && b.0 < b.1 <= v.len() && v@.subrange(
                b.0 as int,
                b.1 as int,
            ) == w,
        },
{
    let n = v.len();
    let end = backward_run(v, 0, n, true);
    proof {
        assert(v@.subrange(0, n as int) =~= v@);
    }
    if end == 0 {
        return None;
    }
    let start = backward_run(v, 0, end, false);
    proof {
        let rest = trimmed_end(v@);
        lemma_trailing_run(v@, true);
        assert(v@.subrange(start as int, end as int) =~= rest.skip(
            rest.len() - trailing_run(rest, false),
        ));
    }
    Some((start, end))
}

/// The strings of `parts` with `sep` between each two.
pub open spec fn joined(parts: Seq<Seq<char>>, sep: Seq<char>) -> Seq<char>
    decreases parts.len(),
{
    if parts.len() == 0 {
        Seq::empty()
    } else if parts.len() == 1 {
        parts[0]
    } else {
        joined(parts.drop_last(), sep) + sep + parts.last()
    }
}

/// The characters of the strings of `parts` with `sep` between each two.
pub fn join_chars(parts: &[&str], sep: char) -> (r: Vec<char>)
    ensures
        r@ == joined(parts.deep_view(), seq![sep]),
{
    let ghost p = parts.deep_view();
    let mut r: Vec<char> = Vec::new();
    let mut i: usize = 0;
    while i < parts.len()
        invariant
            i <= parts.len(),
            p == parts.deep_view(),
            r@ == joined(p.take(i as int), seq![sep]),
        decreases parts.len() - i,
    {
        if i > 0 {
            r.push(sep);
        }
        push_str_chars(&mut r, parts[i]);
        proof {
            let now = p.take(i + 1);
            assert(now.drop_last() =~= p.take(i as int));
        }
        i = i + 1;
    }
    assert(p.take(parts.len() as int) =~= p);
    r
}

/// The character is one of the ten decimal digits.
pub open spec fn is_digit(c: char) -> bool {
    48 <= c as u32 <= 57
}

/// The number that a decimal digit stands for.
pub open spec fn digit_value(c: char) -> nat {
    (c as u32 - 48) as nat
}

/// Every character of `s` is a decimal digit.
pub open spec fn all_digits(s: Seq<char>) -> bool {
    forall|i: int| 0 <= i < s.len() ==> is_digit(#[trigger] s[i])
}

/// The number that a string of decimal digits stands for; 0 for none.
pub open spec fn decimal_value(s: Seq<char>) -> nat
    decreases s.len(),
{
    if s.len() == 0 {
        0
    } else {
        decimal_value(s.drop_last()) * 10 + digit_value(s.last())
    }
}

/// The digits of `s` and whether a minus sign stands before them: the text
/// may start with one `+` or, where `signed`, one `-`.
pub open spec fn sign_and_digits(s: Seq<char>, signed: bool) -> (bool, Seq<char>) {
    if s.len() > 0 && s[0] == '+' {
        (false, s.drop_first())
    } else if signed && s.len() > 0 && s[0] == '-' {
        (true, s.drop_first())
    } else {
        (false, s)
    }
}

/// The integer written in `s`: an optional sign, then one digit or more and
/// nothing else.
pub open spec fn integer_of(s: Seq<char>, signed: bool) -> Option<int> {
    let (negative, digits) = sign_and_digits(s, signed);
    if digits.len() == 0 || !all_digits(digits) {
        None
    } else if negative {
        Some(-(decimal_value(digits) as int))
    } else {
        Some(decimal_value(digits) as int)
    }
}

/// The `i32` written in `s`, if `s` is an integer in its range.
pub open spec fn i32_of(s: Seq<char>) -> Option<i32> {
    match integer_of(s, true) {
        Some(v) => if i32::MIN <= v <= i32::MAX {
            Some(v as i32)
        } else {
            None
        },
        None => None,
    }
}

/// The `usize` written in `s`, if `s` is an unsigned integer in its range.
pub open spec fn usize_of(s: Seq<char>) -> Option<usize> {
    match integer_of(s, false) {
        Some(v) => if v <= usize::MAX {
            Some(v as usize)
        } else {
            None
        },
        None => None,
    }
}

/// A longer string of digits stands for no smaller number.
pub proof fn lemma_decimal_value_grows(s: Seq<char>, k: int)
    requires
        0 <= k <= s.len(),
    ensures
        decimal_value(s.take(k)) <= decimal_value(s),
    decreases s.len() - k,
{
    if k < s.len() {
        lemma_decimal_value_grows(s, k + 1);
        assert(s.take(k + 1).drop_last() =~= s.take(k));
    } else {
        assert(s.take(k) =~= s);
    }
}

/// The number that the digits `v[from..]` stand for, if they are digits, at
/// least one, and the number is at most `limit`.
fn parse_digits(v: &Vec<char>, from: usize, limit: u64) -> (r: Option<u64>)
    requires
        from <= v.len(),
    ensures
        ({
            let digits = v@.skip(from as int);
            if digits.len() > 0 && all_digits(digits) && decimal_value(digits) <= limit {
                r == Some(decimal_value(digits) as u64)
            } else {
                r is None
            }
        }),
{
    let ghost digits = v@.skip(from as int);
    if from == v.len() {
        return None;
    }
    let mut acc: u64 = 0;
    let mut i: usize = from;
    while i < v.len()
        invariant
            from <= i <= v.len(),
            digits == v@.skip(from as int),
            all_digits(digits.take(i - from)),
            acc == decimal_value(digits.take(i - from)),
            acc <= limit,
        decreases v.len() - i,
    {
        let c: u32 = v[i] as u32;
        if c < 48 || c > 57 {
            assert(!is_digit(digits[i - from]));
            return None;
        }
        let d: u64 = (c - 48) as u64;
        proof {
            let now = digits.take(i - from + 1);
            assert(now.drop_last() =~= digits.take(i - from));
            assert forall|j: int| 0 <= j < now.len() implies is_digit(#[trigger] now[j]) by {}
            lemma_decimal_value_grows(digits, i - from + 1);
        }
        let next = match acc.checked_mul(10) {
            Some(m) => m.checked_add(d),
            None => None,
        };
        match next {
            Some(n) => {
                if n > limit {
                    return None;
                }
                acc = n;
            },
            None => {
                return None;
            },
        }
        i = i + 1;
    }
    assert(digits.take(digits.len() as int) =~= digits);
    Some(acc)
}

/// The `i32` written in `v`, as `str::parse::<i32>` reads it: an optional `+`
/// or `-`, then only digits; `None` for anything else and for a number out of
/// range.
pub fn parse_i32(v: &Vec<char>) -> (r: Option<i32>)
    ensures
        r == i32_of(v@),
{
    let negative = v.len() > 0 && v[0] == '-';
    let from: usize = if v.len() > 0 && (v[0] == '+' || v[0] == '-') {
        1
    } else {
        0
    };
    proof {
        if from == 0 {
            assert(v@.skip(0) =~= v@);
        }
    }
    match parse_digits(v, from, 2147483648) {
        None => None,
        Some(n) => {
            if negative {
                if n == 2147483648 {
                    Some(i32::MIN)
                } else {
                    Some(-(n as i32))
                }
            } else if n == 2147483648 {
                None
            } else {
                Some(n as i32)
            }
        },
    }
}

/// The `usize` written in `v`, as `str::parse::<usize>` reads it: an optional
/// `+`, then only digits; `None` for anything else and for a number out of
/// range.
pub fn parse_usize(v: &Vec<char>) -> (r: Option<usize>)
    ensures
        r == usize_of(v@),
{
    let from: usize = if v.len() > 0 && v[0] == '+' {
        1
    } else {
        0
    };
    proof {
        if from == 0 {
            assert(v@.skip(0) =~= v@);
        }
    }
    match parse_digits(v, from, usize::MAX as u64) {
        None => None,
        Some(n) => Some(n as usize),
    }
}

/// The decimal digit for a number below ten.
pub open spec fn digit_char(d: nat) -> char {
    (48 + d) as char
}

/// `n` written in decimal digits, without leading zeros.
pub open spec fn decimal(n: nat) -> Seq<char>
    decreases n,
{
    if n < 10 {
        seq![digit_char(n)]
    } else {
        decimal(n / 10).push(digit_char(n % 10))
    }
}

/// The decimal digit for a number below ten.
fn digit_of(d: usize) -> (c: char)
    requires
        d < 10,
    ensures
        c == digit_char(d as nat),
{
    if d == 0 {
        '0'
    } else if d == 1 {
        '1'
    } else if d == 2 {
        '2'
    } else if d == 3 {
        '3'
    } else if d == 4 {
        '4'
    } else if d == 5 {
        '5'
    } else if d == 6 {
        '6'
    } else if d == 7 {
        '7'
    } else if d == 8 {
        '8'
    } else {
        '9'
    }
}

/// Appends `n`, written in decimal digits, to `out`.
pub fn push_decimal(out: &mut Vec<char>, n: usize)
    ensures
        final(out)@ == old(out)@ + decimal(n as nat),
    decreases n,
{
    if n >= 10 {
        push_decimal(out, n / 10);
    }
    out.push(digit_of(n % 10));
}

/// `a` comes before `b` in the order of strings: at the first position where
/// they differ `a` holds the smaller character, or `a` ends there.
pub open spec fn lex_less(a: Seq<char>, b: Seq<char>) -> bool
    decreases a.len(),
{
    if b.len() == 0 {
        false
    } else if a.len() == 0 {
        true
    } else if a[0] != b[0] {
        (a[0] as u32) < (b[0] as u32)
    } else {
        lex_less(a.drop_first(), b.drop_first())
    }
}

/// No string comes before itself.
pub proof fn lemma_lex_less_irreflexive(a: Seq<char>)
    ensures
        !lex_less(a, a),
    decreases a.len(),
{
    if a.len() > 0 {
        lemma_lex_less_irreflexive(a.drop_first());
    }
}

/// What comes before a string comes before all that the string comes
/// before.
pub proof fn lemma_lex_less_transitive(a: Seq<char>, b: Seq<char>, c: Seq<char>)
    requires
        lex_less(a, b),
        lex_less(b, c),
    ensures
        lex_less(a, c),
    decreases a.len(),
{
    if a.len() > 0 && b.len() > 0 && c.len() > 0 {
        if a[0] == b[0] && b[0] == c[0] {
            lemma_lex_less_transitive(a.drop_first(), b.drop_first(), c.drop_first());
        }
    }
}

/// Of two different strings one comes before the other.
pub proof fn lemma_lex_less_total(a: Seq<char>, b: Seq<char>)
    ensures
        lex_less(a, b) || lex_less(b, a) || a == b,
    decreases a.len(),
{
    if a.len() > 0 && b.len() > 0 {
        if a[0] == b[0] {
            lemma_lex_less_total(a.drop_first(), b.drop_first());
            if a.drop_first() == b.drop_first() {
                assert(b =~= seq![b[0]] + b.drop_first());
            }
        } else {
            let x = a[0] as u32;
            let y = b[0] as u32;
            if x == y {
                vstd::utf8::char_u32_cast(a[0], x);
                vstd::utf8::char_u32_cast(b[0], y);
            }
        }
    }
}

/// Two strings that agree on their first `k` characters are in the order of
/// what follows.
pub proof fn lemma_lex_less_skip(a: Seq<char>, b: Seq<char>, k: int)
    requires
        0 <= k <= a.len(),
        k <= b.len(),
        a.take(k) == b.take(k),
    ensures
        lex_less(a, b) == lex_less(a.skip(k), b.skip(k)),
    decreases k,
{
    if k == 0 {
        assert(a.skip(0) =~= a);
        assert(b.skip(0) =~= b);
    } else {
        assert(b[0] == b.take(k)[0]);
        assert(a.drop_first().take(k - 1) =~= a.take(k).drop_first());
        assert(b.drop_first().take(k - 1) =~= b.take(k).drop_first());
        lemma_lex_less_skip(a.drop_first(), b.drop_first(), k - 1);
        assert(a.drop_first().skip(k - 1) =~= a.skip(k));
        assert(b.drop_first().skip(k - 1) =~= b.skip(k));
    }
}

/// Whether `a` comes before `b` in the order of strings.
pub fn chars_less(a: &Vec<char>, b: &Vec<char>) -> (r: bool)
    ensures
        r == lex_less(a@, b@),
{
    let mut i: usize = 0;
    while i < a.len() && i < b.len() && a[i] == b[i]
        invariant
            i <= a.len(),
            i <= b.len(),
            a@.take(i as int) == b@.take(i as int),
        decreases a.len() - i,
    {
        i = i + 1;
    }
    proof {
        lemma_lex_less_skip(a@, b@, i as int);
    }
    if i >= b.len() {
        false
    } else if i >= a.len() {
        true
    } else {
        let x: u32 = a[i] as u32;
        let y: u32 = b[i] as u32;
        x < y
    }
}

/// Whether `a` comes before `b` in the order of strings.
pub fn str_less(a: &str, b: &str) -> (r: bool)
    ensures
        r == lex_less(a@, b@),
{
    let x = to_chars(a);
    let y = to_chars(b);
    chars_less(&x, &y)
}

/// Whether `v` starts with `prefix`.
pub fn chars_start_with(v: &Vec<char>, prefix: &Vec<char>) -> (r: bool)
    ensures
        r == prefix@.is_prefix_of(v@),
{
    if prefix.len() > v.len() {
        return false;
    }
    let mut i: usize = 0;
    while i < prefix.len()
        invariant
            i <= prefix.len() <= v.len(),
            prefix@.take(i as int) == v@.take(i as int),
        decreases prefix.len() - i,
    {
        if prefix[i] != v[i] {
            return false;
        }
        i = i + 1;
    }
    true
}

/// Whether `s` starts with `prefix`.
pub fn str_starts_with(s: &str, prefix: &str) -> (r: bool)
    ensures
        r == prefix@.is_prefix_of(s@),
{
    let x = to_chars(s);
    let y = to_chars(prefix);
    chars_start_with(&x, &y)
}

/// How many bytes the UTF-8 encoding of a character takes.
pub open spec fn utf8_width(c: char) -> nat {
    if (c as u32) < 0x80 {
        1
    } else if (c as u32) < 0x800 {
        2
    } else if (c as u32) < 0x10000 {
        3
    } else {
        4
    }
}

/// How many bytes the UTF-8 encoding of a string takes.
pub open spec fn utf8_len(s: Seq<char>) -> nat
    decreases s.len(),
{
    if s.len() == 0 {
        0
    } else {
        utf8_len(s.drop_last()) + utf8_width(s.last())
    }
}

/// `n` times the character `c`.
pub open spec fn repeated(c: char, n: nat) -> Seq<char> {
    Seq::new(n, |i: int| c)
}

/// Appends `c` to `out` once for each byte of the UTF-8 encoding of `text`.
pub fn push_for_each_byte(out: &mut Vec<char>, text: &str, c: char)
    ensures
        final(out)@ == old(out)@ + repeated(c, utf8_len(text@)),
{
    let chars = to_chars(text);
    let ghost before = out@;
    let mut i: usize = 0;
    while i < chars.len()
        invariant
            i <= chars.len(),
            out@ == before + repeated(c, utf8_len(chars@.take(i as int))),
        decreases chars.len() - i,
    {
        let code: u32 = chars[i] as u32;
        out.push(c);
        if code >= 0x80 {
            out.push(c);
        }
        if code >= 0x800 {
            out.push(c);
        }
        if code >= 0x10000 {
            out.push(c);
        }
        proof {
            let now = chars@.take(i + 1);
            assert(now.drop_last() =~= chars@.take(i as int));
        }
        i = i + 1;
    }
    assert(chars@.take(chars.len() as int) =~= chars@);
}

/// A copy of `v[from..to]`.
pub fn copy_range(v: &Vec<char>, from: usize, to: usize) -> (r: Vec<char>)
    requires
        from <= to <= v.len(),
    ensures
        r@ == v@.subrange(from as int, to as int),
{
    let mut r: Vec<char> = Vec::new();
    let mut i: usize = from;
    while i < to
        invariant
            from <= i <= to <= v.len(),
            r@ == v@.subrange(from as int, i as int),
        decreases to - i,
    {
        r.push(v[i]);
        i = i + 1;
    }
    r
}

/// The pieces of `s` between the occurrences of `sep`. There is always one
/// piece more than there are separators, so an empty text has one empty
/// piece.
pub open spec fn split_on(s: Seq<char>, sep: char) -> Seq<Seq<char>>
    decreases s.len(),
{
    if s.len() == 0 {
        seq![Seq::empty()]
    } else if s.last() == sep {
        split_on(s.drop_last(), sep).push(Seq::empty())
    } else {
        let before = split_on(s.drop_last(), sep);
        before.drop_last().push(before.last().push(s.last()))
    }
}

/// A text has at least one piece.
pub proof fn lemma_split_on_nonempty(s: Seq<char>, sep: char)
    ensures
        split_on(s, sep).len() > 0,
    decreases s.len(),
{
    if s.len() > 0 {
        lemma_split_on_nonempty(s.drop_last(), sep);
    }
}

/// The pieces of `text` between the occurrences of `sep`.
pub fn split_str(text: &str, sep: char) -> (r: Vec<String>)
    ensures
        r.deep_view() == split_on(text@, sep),
{
    let chars = to_chars(text);
    let mut pieces: Vec<String> = Vec::new();
    let mut current: Vec<char> = Vec::new();
    let mut i: usize = 0;
    while i < chars.len()
        invariant
            i <= chars.len(),
            pieces.deep_view().push(current@) == split_on(chars@.take(i as int), sep),
        decreases chars.len() - i,
    {
        assert(chars@.take(i + 1).drop_last() =~= chars@.take(i as int));
        if chars[i] == sep {
            pieces.push(from_chars(&current));
            current = Vec::new();
        } else {
            current.push(chars[i]);
        }
        i = i + 1;
    }
    assert(chars@.take(chars.len() as int) =~= chars@);
    pieces.push(from_chars(&current));
    pieces
}

} // verus!
