//! The log of the lines that were entered, its listing, and its text in a
//! history file.

use crate::text::{decimal, from_chars, push_decimal, push_str_chars, to_chars};
use vstd::prelude::*;

verus! {

/// One line of the listing: the entry's number, two spaces, the entry, a
/// newline.
pub open spec fn numbered_line(number: nat, command: Seq<char>) -> Seq<char> {
    decimal(number) + seq![' ', ' '] + command + seq!['\n']
}

/// The listing of the entries from position `from` on; each keeps the number
/// of its place in the whole log, counted from 1.
pub open spec fn rendered(entries: Seq<Seq<char>>, from: int) -> Seq<char>
    decreases entries.len() - from,
{
    if from < 0 || from >= entries.len() {
        Seq::empty()
    } else {
        numbered_line((from + 1) as nat, entries[from]) + rendered(entries, from + 1)
    }
}

/// The listing of the whole log, or of its `limit` most recent entries.
pub open spec fn shown(entries: Seq<Seq<char>>, limit: Option<usize>) -> Seq<char> {
    match limit {
        Some(n) => if n <= entries.len() {
            rendered(entries, entries.len() - n)
        } else {
            rendered(entries, 0)
        },
        None => rendered(entries, 0),
    }
}

/// The entries from position `from` on as the text of a file: each entry
/// followed by a newline.
pub open spec fn file_text(entries: Seq<Seq<char>>, from: int) -> Seq<char>
    decreases entries.len() - from,
{
    if from < 0 || from >= entries.len() {
        Seq::empty()
    } else {
        entries[from] + seq!['\n'] + file_text(entries, from + 1)
    }
}

/// The position of the first newline of `s`, or its length where it has none.
pub open spec fn line_end(s: Seq<char>) -> int
    decreases s.len(),
{
    if s.len() == 0 || s[0] == '\n' {
        0
    } else {
        1 + line_end(s.drop_first())
    }
}

/// The lines of a file's text that are not empty. A line ends at a newline or
/// at the end of the text; a carriage return just before the newline belongs
/// to the line's end.
pub open spec fn lines_of(s: Seq<char>) -> Seq<Seq<char>>
    decreases s.len(),
{
    if s.len() == 0 {
        Seq::empty()
    } else {
        let k = line_end(s);
        if 0 <= k < s.len() {
            let line = if k > 0 && s[k - 1] == '\r' {
                s.take(k - 1)
            } else {
                s.take(k)
            };
            if line.len() > 0 {
                seq![line] + lines_of(s.skip(k + 1))
            } else {
                lines_of(s.skip(k + 1))
            }
        } else {
            seq![s]
        }
    }
}

/// A line ends within the text, at a newline or at the end, and holds no
/// newline.
pub proof fn lemma_line_end(s: Seq<char>)
    ensures
        0 <= line_end(s) <= s.len(),
        forall|i: int| 0 <= i < line_end(s) ==> #[trigger] s[i] != '\n',
        line_end(s) < s.len() ==> s[line_end(s)] == '\n',
    decreases s.len(),
{
    if s.len() > 0 && s[0] != '\n' {
        let t = s.drop_first();
        lemma_line_end(t);
        assert forall|i: int| 0 <= i < line_end(s) implies #[trigger] s[i] != '\n' by {
            if i > 0 {
                assert(s[i] == t[i - 1]);
            }
        }
    }
}

/// The first newline at or after a stretch without one is the line's end.
pub proof fn lemma_line_end_is(s: Seq<char>, k: int)
    requires
        0 <= k <= s.len(),
        forall|i: int| 0 <= i < k ==> #[trigger] s[i] != '\n',
        k < s.len() ==> s[k] == '\n',
    ensures
        line_end(s) == k,
{
    lemma_line_end(s);
}

/// The listing of a log of three entries has three lines, numbered from 1,
/// and with a limit of two the last two of them, under their numbers 2 and 3.
pub proof fn lemma_listing_of_three(a: Seq<char>, b: Seq<char>, c: Seq<char>)
    ensures
        shown(seq![a, b, c], None) == seq!['1', ' ', ' '] + a + seq!['\n'] + seq!['2', ' ', ' ']
            + b + seq!['\n'] + seq!['3', ' ', ' '] + c + seq!['\n'],
        shown(seq![a, b, c], Some(2usize)) == seq!['2', ' ', ' '] + b + seq!['\n'] + seq![
            '3',
            ' ',
            ' ',
        ] + c + seq!['\n'],
{
    let log = seq![a, b, c];
    reveal_with_fuel(rendered, 4);
    assert(decimal(1) =~= seq!['1'] && decimal(2) =~= seq!['2'] && decimal(3) =~= seq!['3']);
    assert(numbered_line(1, a) =~= seq!['1', ' ', ' '] + a + seq!['\n']);
    assert(numbered_line(2, b) =~= seq!['2', ' ', ' '] + b + seq!['\n']);
    assert(numbered_line(3, c) =~= seq!['3', ' ', ' '] + c + seq!['\n']);
    assert(rendered(log, 1) =~= numbered_line(2, b) + numbered_line(3, c));
    assert(rendered(log, 0) =~= numbered_line(1, a) + numbered_line(2, b) + numbered_line(3, c));
    assert(shown(log, None) =~= seq!['1', ' ', ' '] + a + seq!['\n'] + seq!['2', ' ', ' '] + b
        + seq!['\n'] + seq!['3', ' ', ' '] + c + seq!['\n']);
    assert(shown(log, Some(2usize)) =~= seq!['2', ' ', ' '] + b + seq!['\n'] + seq!['3', ' ', ' ']
        + c + seq!['\n']);
}

/// A limit that reaches beyond the log shows the whole log.
pub proof fn lemma_limit_beyond_log(entries: Seq<Seq<char>>, limit: usize)
    requires
        limit >= entries.len(),
    ensures
        shown(entries, Some(limit)) == shown(entries, None),
{
}

/// A line that a history file gives back as it was written: it is not
/// empty, holds no newline, and does not end in a carriage return.
pub open spec fn is_plain_line(line: Seq<char>) -> bool {
    &&& line.len() > 0
    &&& line.last() != '\r'
    &&& forall|i: int| 0 <= i < line.len() ==> #[trigger] line[i] != '\n'
}

/// A log of plain lines that is written to a file and read back is the same
/// log.
pub proof fn lemma_written_log_reads_back(entries: Seq<Seq<char>>, from: int)
    requires
        0 <= from <= entries.len(),
        forall|i: int| 0 <= i < entries.len() ==> is_plain_line(#[trigger] entries[i]),
    ensures
        lines_of(file_text(entries, from)) == entries.skip(from),
    decreases entries.len() - from,
{
    if from < entries.len() {
        let line = entries[from];
        let rest = file_text(entries, from + 1);
        let text = file_text(entries, from);
        assert forall|i: int| 0 <= i < line.len() implies #[trigger] text[i] != '\n' by {}
        lemma_line_end_is(text, line.len() as int);
        assert(text.take(line.len() as int) =~= line);
        assert(text.skip(line.len() as int + 1) =~= rest);
        lemma_written_log_reads_back(entries, from + 1);
    }
}

/// The log of the lines that were entered, oldest first. It only grows.
pub struct History {
    commands: Vec<String>,
    /// How many of the entries, from the oldest on, a history file holds
    /// already.
    saved: usize,
}

impl View for History {
    type V = Seq<Seq<char>>;

    closed spec fn view(&self) -> Seq<Seq<char>> {
        self.commands.deep_view()
    }
}

impl History {
    /// How many of the entries are marked as saved.
    pub closed spec fn saved(&self) -> nat {
        self.saved as nat
    }

    /// No more entries are marked as saved than there are.
    pub closed spec fn wf(&self) -> bool {
        self.saved <= self.commands.len()
    }

    /// An empty log.
    pub fn new() -> (h: History)
        ensures
            h.wf(),
            h@.len() == 0,
            h.saved() == 0,
    {
        let h = History { commands: Vec::new(), saved: 0 };
        h
    }

    /// Adds `command` as the most recent entry.
    pub fn append(&mut self, command: &str)
        requires
            old(self).wf(),
        ensures
            final(self).wf(),
            final(self)@ == old(self)@.push(command@),
            final(self).saved() == old(self).saved(),
    {
        self.commands.push(command.to_owned());
    }

    /// The number of entries.
    pub fn len(&self) -> (n: usize)
        ensures
            n == self@.len(),
    {
        self.commands.len()
    }

    /// The entry that is `index_from_end` entries before the most recent one;
    /// `None` where the log is not that long.
    pub fn get_last_command_by_idx(&self, index_from_end: usize) -> (r: Option<&str>)
        ensures
            index_from_end >= self@.len() ==> r is None,
            index_from_end < self@.len() ==> (r matches Some(s) && s@ == self@[self@.len() - 1
                - index_from_end]),
    {
        if index_from_end >= self.commands.len() {
            None
        } else {
            let index = self.commands.len() - 1 - index_from_end;
            Some(self.commands[index].as_str())
        }
    }

    /// The listing of the log: one numbered line for each entry, or for each
    /// of the `limit` most recent ones; a `limit` beyond the log shows all.
    pub fn show(&self, limit: Option<usize>) -> (r: String)
        ensures
            r@ == shown(self@, limit),
    {
        let len = self.commands.len();
        let start: usize = match limit {
            Some(n) => if n <= len {
                len - n
            } else {
                0
            },
            None => 0,
        };
        let mut out: Vec<char> = Vec::new();
        let mut i: usize = start;
        while i < len
            invariant
                start <= i <= len,
                len == self.commands.len(),
                out@ + rendered(self@, i as int) == rendered(self@, start as int),
            decreases len - i,
        {
            push_decimal(&mut out, i + 1);
            out.push(' ');
            out.push(' ');
            push_str_chars(&mut out, self.commands[i].as_str());
            out.push('\n');
            i = i + 1;
        }
        from_chars(&out)
    }

    /// Adds the lines of a history file's text that are not empty, in the
    /// order of the file, after the entries that are there.
    pub fn read_from_text(&mut self, text: &str)
        requires
            old(self).wf(),
        ensures
            final(self).wf(),
            final(self)@ == old(self)@ + lines_of(text@),
            final(self).saved() == old(self).saved(),
    {
        let chars = to_chars(text);
        let len = chars.len();
        let mut start: usize = 0;
        assert(chars@.skip(0) =~= chars@);
        while start < len
            invariant
                start <= len,
                len == chars.len(),
                self.wf(),
                self.saved() == old(self).saved(),
                self@ + lines_of(chars@.skip(start as int)) == old(self)@ + lines_of(text@),
            decreases len - start,
        {
            let ghost rest = chars@.skip(start as int);
            let mut end: usize = start;
            while end < len && chars[end] != '\n'
                invariant
                    start <= end <= len,
                    len == chars.len(),
                    forall|i: int| start <= i < end ==> #[trigger] chars@[i] != '\n',
                decreases len - end,
            {
                end = end + 1;
            }
            proof {
                assert forall|i: int| 0 <= i < end - start implies #[trigger] rest[i] != '\n' by {}
                lemma_line_end_is(rest, end - start);
            }
            if end < len {
                let stop: usize = if end > start && chars[end - 1] == '\r' {
                    end - 1
                } else {
                    end
                };
                if stop > start {
                    let line = crate::text::from_range(&chars, start, stop);
                    self.commands.push(line);
                }
                proof {
                    assert(rest.take(stop - start) =~= chars@.subrange(start as int, stop as int));
                    assert(rest.skip(end - start + 1) =~= chars@.skip(end + 1));
                }
                start = end + 1;
            } else {
                let line = crate::text::from_range(&chars, start, len);
                self.commands.push(line);
                start = len;
            }
        }
    }

    /// The text of a history file that holds the entries from `from` on.
    fn text_from(&self, from: usize) -> (r: String)
        requires
            from <= self@.len(),
        ensures
            r@ == file_text(self@, from as int),
    {
        let len = self.commands.len();
        let mut out: Vec<char> = Vec::new();
        let mut i: usize = from;
        while i < len
            invariant
                from <= i <= len,
                len == self.commands.len(),
                out@ + file_text(self@, i as int) == file_text(self@, from as int),
            decreases len - i,
        {
            push_str_chars(&mut out, self.commands[i].as_str());
            out.push('\n');
            i = i + 1;
        }
        from_chars(&out)
    }

    /// The text of a history file that holds the whole log.
    pub fn text_to_write(&self) -> (r: String)
        ensures
            r@ == file_text(self@, 0),
    {
        self.text_from(0)
    }

    /// The text to add to a history file: the entries that are not marked as
    /// saved.
    pub fn text_to_append(&self) -> (r: String)
        requires
            self.wf(),
        ensures
            r@ == file_text(self@, self.saved() as int),
    {
        self.text_from(self.saved)
    }

    /// Marks every entry as saved, once a file holds them.
    pub fn mark_saved(&mut self)
        ensures
            final(self).wf(),
            final(self)@ == old(self)@,
            final(self).saved() == old(self)@.len(),
    {
        self.saved = self.commands.len();
    }
}

} // verus!
