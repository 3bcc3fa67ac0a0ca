//! Splitting a raw bracketed log line into timestamp, thread tag and message.
use vstd::prelude::*;
use crate::error::ParseError;
use crate::text::{chars_of, find_char, find_from, is_char, is_first_where, lemma_first_where_unique, substring};

verus! {

/// `s` without one leading `[`, where it has one.
pub open spec fn strip_open(s: Seq<char>) -> Seq<char> {
    if s.len() > 0 && s[0] == '[' {
        s.drop_first()
    } else {
        s
    }
}

/// The parts `(time, thread, message)` of a line: the text before the first
/// `]`, the text up to the second `]` (each without its leading `[`), and all
/// that follows the second `]`, later `]` included. `None` when the line holds
/// no `]`.
pub open spec fn line_parts(s: Seq<char>) -> Option<(Seq<char>, Seq<char>, Seq<char>)> {
    let i = find_from(s, ']', 0);
    if i >= s.len() {
        None
    } else {
        let j = find_from(s, ']', i + 1);
        Some(
            (
                strip_open(s.subrange(0, i)),
                strip_open(s.subrange(i + 1, j)),
                if j < s.len() {
                    s.subrange(j + 1, s.len() as int)
                } else {
                    Seq::empty()
                },
            ),
        )
    }
}

/// A line `[time][thread]rest` whose time and thread hold no `]` splits into
/// `time`, `thread` and `rest`, the `]` inside `rest` kept as they were.
pub proof fn lemma_line_parts_bracketed(time: Seq<char>, thread: Seq<char>, rest: Seq<char>)
    requires
        !time.contains(']'),
        !thread.contains(']'),
    ensures
        line_parts(seq!['['] + time + seq![']', '['] + thread + seq![']'] + rest) == Some((time, thread, rest)),
{
    let s = seq!['['] + time + seq![']', '['] + thread + seq![']'] + rest;
    let i: int = time.len() as int + 1;
    let j: int = time.len() as int + thread.len() as int + 3;
    assert forall|k: int| 0 <= k < i implies s[k] != ']' by {
        if k > 0 {
            assert(s[k] == time[k - 1]);
        }
    }
    assert(is_first_where(s, 0, is_char(']'), i));
    lemma_first_where_unique(s, 0, is_char(']'), i);
    assert forall|k: int| i + 1 <= k < j implies s[k] != ']' by {
        if k > i + 1 {
            assert(s[k] == thread[k - i - 2]);
        }
    }
    assert(is_first_where(s, i + 1, is_char(']'), j));
    lemma_first_where_unique(s, i + 1, is_char(']'), j);
    assert(strip_open(s.subrange(0, i)) =~= time);
    assert(strip_open(s.subrange(i + 1, j)) =~= thread);
    if j < s.len() {
        assert(s.subrange(j + 1, s.len() as int) =~= rest);
    } else {
        assert(rest =~= Seq::<char>::empty());
    }
}

/// One decomposed log line.
pub struct LogLine {
    pub time: String,
    pub thread: String,
    pub message: String,
}

/// The start of a segment `s[a..b]` once one leading `[` is skipped.
fn open_start(s: &[char], a: usize, b: usize) -> (r: usize)
    requires
        a <= b <= s@.len(),
    ensures
        a <= r <= b,
        s@.subrange(r as int, b as int) == strip_open(s@.subrange(a as int, b as int)),
{
    if a < b && s[a] == '[' {
        assert(s@.subrange(a + 1, b as int) =~= s@.subrange(a as int, b as int).drop_first());
        a + 1
    } else {
        a
    }
}

impl LogLine {
    /// Splits `line` at its first two `]` delimiters.
    pub fn new(line: String) -> (r: Result<LogLine, ParseError>)
        ensures
            match r {
                Ok(l) => line_parts(line@) == Some((l.time@, l.thread@, l.message@)),
                Err(e) => line_parts(line@) is None && e == ParseError::MalformedLine,
            },
    {
        let s = line.as_str();
        let cs = chars_of(s);
        let n = cs.len();
        let i = find_char(cs.as_slice(), ']', 0);
        if i >= n {
            return Err(ParseError::MalformedLine);
        }
        let j = find_char(cs.as_slice(), ']', i + 1);
        let ta = open_start(cs.as_slice(), 0, i);
        let ha = open_start(cs.as_slice(), i + 1, j);
        let time = substring(s, ta, i);
        let thread = substring(s, ha, j);
        let message = if j < n {
            substring(s, j + 1, n)
        } else {
            String::new()
        };
        Ok(LogLine { time, thread, message })
    }
}

} // verus!
