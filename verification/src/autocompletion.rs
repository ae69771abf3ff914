//! Completion of a word: the candidates that start with it, each once and in
//! order, and the longest text that they share.

use crate::text::{
    from_range, lemma_lex_less_irreflexive, lemma_lex_less_total, lemma_lex_less_transitive,
    lex_less, str_less, str_starts_with, to_chars,
};
use vstd::prelude::*;

verus! {

/// Each string of `s` comes before all that follow it, so none occurs twice.
pub open spec fn strictly_sorted(s: Seq<Seq<char>>) -> bool {
    forall|i: int, j: int| 0 <= i < j < s.len() ==> lex_less(#[trigger] s[i], #[trigger] s[j])
}

/// `r` lists the strings of `m`, each once, in ascending order.
pub open spec fn is_listing(r: Seq<Seq<char>>, m: Set<Seq<char>>) -> bool {
    strictly_sorted(r) && forall|x: Seq<char>| r.contains(x) <==> m.contains(x)
}

/// The strings of `m`, each once, in ascending order.
pub open spec fn listing(m: Set<Seq<char>>) -> Seq<Seq<char>> {
    choose|r: Seq<Seq<char>>| is_listing(r, m)
}

/// The strings among the static candidates and the dynamic matches that start
/// with `partial`.
pub open spec fn matching(
    candidates: Set<Seq<char>>,
    partial: Seq<char>,
    dynamic: Seq<Seq<char>>,
) -> Set<Seq<char>> {
    Set::new(
        |x: Seq<char>| (candidates.contains(x) || dynamic.contains(x)) && partial.is_prefix_of(x),
    )
}

/// What completing `partial` offers: nothing for an empty `partial`,
/// otherwise every candidate and dynamic match that starts with it, each once,
/// in ascending order.
pub open spec fn completions(
    candidates: Set<Seq<char>>,
    partial: Seq<char>,
    dynamic: Seq<Seq<char>>,
) -> Seq<Seq<char>> {
    if partial.len() == 0 {
        Seq::empty()
    } else {
        listing(matching(candidates, partial, dynamic))
    }
}

/// `p` is a prefix of every string of `m`.
pub open spec fn is_common_prefix(p: Seq<char>, m: Seq<Seq<char>>) -> bool {
    forall|i: int| 0 <= i < m.len() ==> p.is_prefix_of(#[trigger] m[i])
}

/// `p` is a prefix of every string of `m`, and no longer string is.
pub open spec fn is_longest_common_prefix(p: Seq<char>, m: Seq<Seq<char>>) -> bool {
    is_common_prefix(p, m) && forall|q: Seq<char>| #[trigger]
        is_common_prefix(q, m) ==> q.len() <= p.len()
}

/// The longest string that every string of `m` starts with.
pub open spec fn longest_common_prefix(m: Seq<Seq<char>>) -> Seq<char> {
    choose|p: Seq<char>| is_longest_common_prefix(p, m)
}

/// A set has one listing only.
pub proof fn lemma_listing_unique(a: Seq<Seq<char>>, b: Seq<Seq<char>>, m: Set<Seq<char>>)
    requires
        is_listing(a, m),
        is_listing(b, m),
    ensures
        a == b,
    decreases a.len(),
{
    if a.len() == 0 {
        if b.len() > 0 {
            assert(a.contains(b[0]));
        }
    } else if b.len() == 0 {
        assert(b.contains(a[0]));
    } else {
        assert(a.contains(a[0]));
        assert(b.contains(b[0]));
        let j = choose|j: int| 0 <= j < b.len() && b[j] == a[0];
        let i = choose|i: int| 0 <= i < a.len() && a[i] == b[0];
        assert(a[0] == b[0]) by {
            lemma_lex_less_total(a[0], b[0]);
            if lex_less(a[0], b[0]) {
                if j > 0 {
                    lemma_lex_less_transitive(a[0], b[0], b[j]);
                }
                lemma_lex_less_irreflexive(a[0]);
            } else if lex_less(b[0], a[0]) {
                if i > 0 {
                    lemma_lex_less_transitive(b[0], a[0], a[i]);
                }
                lemma_lex_less_irreflexive(b[0]);
            }
        }
        let a1 = a.drop_first();
        let b1 = b.drop_first();
        let m1 = m.remove(a[0]);
        assert(strictly_sorted(a1)) by {
            assert forall|i: int, j: int| 0 <= i < j < a1.len() implies lex_less(
                #[trigger] a1[i],
                #[trigger] a1[j],
            ) by {}
        }
        assert(strictly_sorted(b1)) by {
            assert forall|i: int, j: int| 0 <= i < j < b1.len() implies lex_less(
                #[trigger] b1[i],
                #[trigger] b1[j],
            ) by {}
        }
        assert forall|x: Seq<char>| a1.contains(x) <==> m1.contains(x) by {
            lemma_drop_first_contains(a, x);
        }
        assert forall|x: Seq<char>| b1.contains(x) <==> m1.contains(x) by {
            lemma_drop_first_contains(b, x);
        }
        lemma_listing_unique(a1, b1, m1);
        assert(b =~= seq![b[0]] + b1);
    }
}

/// In a strictly sorted list the strings after the first are those of the
/// list but the first.
proof fn lemma_drop_first_contains(a: Seq<Seq<char>>, x: Seq<char>)
    requires
        strictly_sorted(a),
        a.len() > 0,
    ensures
        a.drop_first().contains(x) <==> (a.contains(x) && x != a[0]),
{
    let a1 = a.drop_first();
    if a1.contains(x) {
        let k = choose|k: int| 0 <= k < a1.len() && a1[k] == x;
        lemma_lex_less_irreflexive(a[0]);
    }
    if a.contains(x) && x != a[0] {
        let k = choose|k: int| 0 <= k < a.len() && a[k] == x;
        assert(a1[k - 1] == x);
    }
}

/// The listing of a set that has one is a listing of it.
pub proof fn lemma_listing_is(r: Seq<Seq<char>>, m: Set<Seq<char>>)
    requires
        is_listing(r, m),
    ensures
        listing(m) == r,
{
    lemma_listing_unique(listing(m), r, m);
}

/// Strings have one longest common prefix only.
pub proof fn lemma_longest_common_prefix_unique(p: Seq<char>, q: Seq<char>, m: Seq<Seq<char>>)
    requires
        m.len() > 0,
        is_longest_common_prefix(p, m),
        is_longest_common_prefix(q, m),
    ensures
        p == q,
{
    assert(q.is_prefix_of(m[0]));
}

/// Puts `item` at its place in the sorted `list`, unless it is there already.
pub(crate) fn insert_sorted(list: &mut Vec<String>, item: String)
    requires
        strictly_sorted(old(list).deep_view()),
    ensures
        strictly_sorted(final(list).deep_view()),
        forall|x: Seq<char>|
            final(list).deep_view().contains(x) <==> (old(list).deep_view().contains(x) || x
                == item@),
{
    let ghost before = list.deep_view();
    let mut k: usize = 0;
    while k < list.len() && str_less(list[k].as_str(), item.as_str())
        invariant
            k <= list.len(),
            list.deep_view() == before,
            forall|j: int| 0 <= j < k ==> lex_less(#[trigger] before[j], item@),
        decreases list.len() - k,
    {
        k = k + 1;
    }
    if k < list.len() {
        if list[k] == item {
            assert forall|x: Seq<char>| before.contains(x) || x == item@ implies before.contains(
                x,
            ) by {
                assert(before[k as int] == item@);
            }
            return ;
        }
    }
    list.insert(k, item);
    proof {
        let after = list.deep_view();
        if k < before.len() {
            lemma_lex_less_total(before[k as int], item@);
        }
        assert forall|i: int, j: int| 0 <= i < j < after.len() implies lex_less(
            #[trigger] after[i],
            #[trigger] after[j],
        ) by {
            if j < k {
                assert(after[i] == before[i] && after[j] == before[j]);
            } else if j == k {
                assert(after[i] == before[i]);
            } else if i < k {
                assert(after[i] == before[i] && after[j] == before[j - 1]);
                if j - 1 == i {
                    assert(false);
                }
            } else if i == k {
                if j - 1 > k {
                    lemma_lex_less_transitive(item@, before[k as int], before[j - 1]);
                }
            } else {
                assert(after[i] == before[i - 1] && after[j] == before[j - 1]);
            }
        }
        assert forall|x: Seq<char>| after.contains(x) <==> (before.contains(x) || x
            == item@) by {
            if after.contains(x) {
                let i = choose|i: int| 0 <= i < after.len() && after[i] == x;
                if i < k {
                    assert(before[i] == x);
                } else if i > k {
                    assert(before[i - 1] == x);
                }
            }
            if before.contains(x) {
                let i = choose|i: int| 0 <= i < before.len() && before[i] == x;
                if i < k {
                    assert(after[i] == x);
                } else {
                    assert(after[i + 1] == x);
                }
            }
            if x == item@ {
                assert(after[k as int] == x);
            }
        }
    }
}

/// Adds to the sorted `list` the strings of `source` that start with
/// `partial`.
fn add_matching(list: &mut Vec<String>, source: &Vec<String>, partial: &str)
    requires
        strictly_sorted(old(list).deep_view()),
    ensures
        strictly_sorted(final(list).deep_view()),
        forall|x: Seq<char>|
            final(list).deep_view().contains(x) <==> (old(list).deep_view().contains(x) || (
            source.deep_view().contains(x) && partial@.is_prefix_of(x))),
{
    let ghost before = list.deep_view();
    let ghost src = source.deep_view();
    let mut i: usize = 0;
    while i < source.len()
        invariant
            i <= source.len(),
            src == source.deep_view(),
            strictly_sorted(list.deep_view()),
            forall|x: Seq<char>|
                list.deep_view().contains(x) <==> (before.contains(x) || (src.take(
                    i as int,
                ).contains(x) && partial@.is_prefix_of(x))),
        decreases source.len() - i,
    {
        assert(src[i as int] == source[i as int]@);
        let taken = str_starts_with(source[i].as_str(), partial);
        if taken {
            insert_sorted(list, source[i].clone());
        }
        proof {
            let now = list.deep_view();
            assert(src.take(i + 1) =~= src.take(i as int).push(src[i as int]));
            assert forall|x: Seq<char>| now.contains(x) <==> (before.contains(x) || (src.take(
                i + 1,
            ).contains(x) && partial@.is_prefix_of(x))) by {
                lemma_push_contains(src.take(i as int), src[i as int], x);
            }
        }
        i = i + 1;
    }
    proof {
        assert(src.take(source.len() as int) =~= src);
        assert forall|x: Seq<char>|
            list.deep_view().contains(x) <==> (before.contains(x) || (src.contains(x)
                && partial@.is_prefix_of(x))) by {
            assert(list.deep_view().contains(x) <==> (before.contains(x) || (src.take(
                source.len() as int,
            ).contains(x) && partial@.is_prefix_of(x))));
        }
    }
}

/// A list with one string more holds that string and what it held before.
proof fn lemma_push_contains(s: Seq<Seq<char>>, item: Seq<char>, x: Seq<char>)
    ensures
        s.push(item).contains(x) <==> (s.contains(x) || x == item),
{
    let t = s.push(item);
    if t.contains(x) {
        let i = choose|i: int| 0 <= i < t.len() && t[i] == x;
    }
    if s.contains(x) {
        let i = choose|i: int| 0 <= i < s.len() && s[i] == x;
        assert(t[i] == x);
    }
    if x == item {
        assert(t[s.len() as int] == x);
    }
}

/// How many characters `a` and `b` have in common at their start.
fn find_common_length_of_two_strings(a: &Vec<char>, b: &Vec<char>) -> (n: usize)
    ensures
        n <= a.len(),
        n <= b.len(),
        a@.take(n as int) == b@.take(n as int),
        n == a.len() || n == b.len() || a@[n as int] != b@[n as int],
{
    let mut n: usize = 0;
    while n < a.len() && n < b.len() && a[n] == b[n]
        invariant
            n <= a.len(),
            n <= b.len(),
            a@.take(n as int) == b@.take(n as int),
        decreases a.len() - n,
    {
        n = n + 1;
    }
    n
}

/// The longest string that every string of `matches` starts with; `None`
/// where there is no string at all.
pub fn common_prefix_of(matches: &Vec<String>) -> (r: Option<String>)
    ensures
        matches.len() == 0 ==> r is None,
        matches.len() > 0 ==> (r matches Some(p) && is_longest_common_prefix(
            p@,
            matches.deep_view(),
        ) && p@ == longest_common_prefix(matches.deep_view())),
{
    if matches.len() == 0 {
        return None;
    }
    let ghost m = matches.deep_view();
    let first = to_chars(matches[0].as_str());
    let mut common_len: usize = first.len();
    let mut i: usize = 1;
    while i < matches.len()
        invariant
            1 <= i <= matches.len(),
            m == matches.deep_view(),
            first@ == m[0],
            common_len <= first.len(),
            forall|j: int| 0 <= j < i ==> first@.take(common_len as int).is_prefix_of(#[trigger] m[j]),
            common_len == first.len() || exists|j: int|
                0 <= j < i && !first@.take(common_len + 1).is_prefix_of(#[trigger] m[j]),
        decreases matches.len() - i,
    {
        let other = to_chars(matches[i].as_str());
        let n = find_common_length_of_two_strings(&first, &other);
        if n < common_len {
            proof {
                assert forall|j: int| 0 <= j < i + 1 implies first@.take(n as int).is_prefix_of(
                    #[trigger] m[j],
                ) by {
                    if j < i {
                        assert(first@.take(n as int) =~= first@.take(common_len as int).take(
                            n as int,
                        ));
                    }
                }
                assert(!first@.take(n + 1).is_prefix_of(m[i as int])) by {
                    if n < other@.len() {
                        assert(first@.take(n + 1)[n as int] != other@.subrange(0, n + 1)[n as int]);
                    }
                }
            }
            common_len = n;
        } else {
            proof {
                assert(first@.take(common_len as int) =~= other@.take(n as int).take(
                    common_len as int,
                ));
            }
        }
        i = i + 1;
    }
    let prefix = from_range(&first, 0, common_len);
    proof {
        let p = prefix@;
        assert forall|q: Seq<char>| #[trigger] is_common_prefix(q, m) implies q.len()
            <= p.len() by {}
    }
    proof {
        assert(is_longest_common_prefix(prefix@, m));
        lemma_longest_common_prefix_unique(prefix@, longest_common_prefix(m), m);
    }
    Some(prefix)
}

/// Completion of a word from a fixed set of candidates and from a lookup
/// that is asked anew for each word.
pub struct AutoCompletion<F> {
    candidates: Vec<String>,
    dynamic_completion: F,
}

impl<F> AutoCompletion<F> {
    /// The lookup that `complete` asks.
    pub closed spec fn dynamic(&self) -> F {
        self.dynamic_completion
    }
}

/// Seen as the set of its static candidates.
impl<F> View for AutoCompletion<F> {
    type V = Set<Seq<char>>;

    closed spec fn view(&self) -> Set<Seq<char>> {
        self.candidates.deep_view().to_set()
    }
}

/// The strings of a list of slices as owned strings.
fn owned(candidates: Vec<&str>) -> (r: Vec<String>)
    ensures
        r.deep_view() == candidates.deep_view(),
{
    let mut r: Vec<String> = Vec::new();
    let mut i: usize = 0;
    while i < candidates.len()
        invariant
            i <= candidates.len(),
            r.deep_view() == candidates.deep_view().take(i as int),
        decreases candidates.len() - i,
    {
        r.push(candidates[i].to_owned());
        assert(candidates.deep_view().take(i + 1) =~= candidates.deep_view().take(i as int).push(
            candidates[i as int]@,
        ));
        i = i + 1;
    }
    r
}

/// The unit parameter only gives `new` a home: the value that it returns
/// holds a lookup of a type that has no name.
impl AutoCompletion<()> {
    /// A completion over `candidates` alone: its lookup never offers anything.
    pub fn new(candidates: Vec<&str>) -> (r: AutoCompletion<impl Fn(&str) -> Vec<String>>)
        ensures
            r.wf(),
            r@ == candidates.deep_view().to_set(),
            forall|partial: &str, matches: Vec<String>|
                call_ensures(r.dynamic(), (partial,), matches) ==> matches@.len() == 0,
    {
        let nothing = |partial: &str| -> (matches: Vec<String>)
            ensures
                matches@.len() == 0,
            { Vec::new() };
        AutoCompletion { candidates: owned(candidates), dynamic_completion: nothing }
    }
}

impl<F: Fn(&str) -> Vec<String>> AutoCompletion<F> {
    /// The lookup can be asked for any word. Both constructors establish
    /// this, and no method changes the value.
    pub open spec fn wf(&self) -> bool {
        forall|partial: &str| call_requires(self.dynamic(), (partial,))
    }

    /// A completion over `candidates` and over what `dynamic_completion`
    /// returns for the word at hand.
    pub fn new_with_dynamic_completion(candidates: Vec<&str>, dynamic_completion: F) -> (r: Self)
        requires
            forall|partial: &str| call_requires(dynamic_completion, (partial,)),
        ensures
            r.wf(),
            r@ == candidates.deep_view().to_set(),
            r.dynamic() == dynamic_completion,
    {
        AutoCompletion { candidates: owned(candidates), dynamic_completion }
    }

    /// The completions of `partial` where the lookup has returned
    /// `dynamic_matches`.
    pub fn complete_with(&self, partial: &str, dynamic_matches: &Vec<String>) -> (r: Vec<String>)
        ensures
            r.deep_view() == completions(self@, partial@, dynamic_matches.deep_view()),
            partial@.len() > 0 ==> is_listing(
                r.deep_view(),
                matching(self@, partial@, dynamic_matches.deep_view()),
            ),
            is_common_prefix(partial@, r.deep_view()),
    {
        let mut matches: Vec<String> = Vec::new();
        if partial.is_empty() {
            return matches;
        }
        add_matching(&mut matches, &self.candidates, partial);
        add_matching(&mut matches, dynamic_matches, partial);
        proof {
            let m = matching(self@, partial@, dynamic_matches.deep_view());
            assert forall|x: Seq<char>| matches.deep_view().contains(x) <==> m.contains(x) by {}
            lemma_listing_is(matches.deep_view(), m);
            assert forall|i: int| 0 <= i < matches.deep_view().len() implies partial@.is_prefix_of(
                #[trigger] matches.deep_view()[i],
            ) by {}
        }
        matches
    }

    /// The completions of `partial`: for an empty word none, and the lookup
    /// is not asked; otherwise the candidates and the lookup's matches that
    /// start with `partial`, each once, in ascending order.
    pub fn complete(&self, partial: &str) -> (r: Vec<String>)
        requires
            self.wf(),
        ensures
            partial@.len() == 0 ==> r@.len() == 0,
            is_common_prefix(partial@, r.deep_view()),
            strictly_sorted(r.deep_view()),
            partial@.len() > 0 ==> exists|dynamic_matches: Vec<String>|
                #[trigger] call_ensures(self.dynamic(), (partial,), dynamic_matches)
                    && r.deep_view() == completions(
                    self@,
                    partial@,
                    dynamic_matches.deep_view(),
                ),
    {
        if partial.is_empty() {
            return Vec::new();
        }
        assert(call_requires(self.dynamic(), (partial,)));
        let dynamic_matches = (self.dynamic_completion)(partial);
        self.complete_with(partial, &dynamic_matches)
    }

    /// The longest string that all completions of `partial` start with;
    /// `None` where `partial` has no completion.
    pub fn find_common_prefix(&self, partial: &str) -> (r: Option<String>)
        requires
            self.wf(),
        ensures
            partial@.len() == 0 ==> r is None,
            partial@.len() > 0 ==> exists|dynamic_matches: Vec<String>|
                #[trigger] call_ensures(self.dynamic(), (partial,), dynamic_matches) && ({
                    let matches = completions(self@, partial@, dynamic_matches.deep_view());
                    if matches.len() == 0 {
                        r is None
                    } else {
                        r matches Some(p) && is_longest_common_prefix(p@, matches)
                    }
                }),
    {
        let matches = self.complete(partial);
        common_prefix_of(&matches)
    }
}

} // verus!
