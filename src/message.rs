//! Splitting a message into its origin tag and its payload.
use vstd::prelude::*;
use crate::error::ParseError;
use crate::text::{
    chars_of, find_char, find_from, is_char, is_first_where, lemma_first_where_unique, substring, trim,
    trim_bounds,
};

verus! {

/// The parts `(origin, data)` of a message: the text before the first `:`,
/// and all after it, later `:` included, without surrounding whitespace.
/// `None` when the message holds no `:`.
pub open spec fn message_parts(s: Seq<char>) -> Option<(Seq<char>, Seq<char>)> {
    let i = find_from(s, ':', 0);
    if i >= s.len() {
        None
    } else {
        Some((s.subrange(0, i), trim(s.subrange(i + 1, s.len() as int))))
    }
}

/// A message `origin:data` whose origin holds no `:` splits into `origin`
/// and `data` trimmed, every `:` inside `data` kept.
pub proof fn lemma_message_parts_colon(origin: Seq<char>, data: Seq<char>)
    requires
        !origin.contains(':'),
    ensures
        message_parts(origin + seq![':'] + data) == Some((origin, trim(data))),
{
    let s = origin + seq![':'] + data;
    let i = origin.len() as int;
    assert forall|k: int| 0 <= k < i implies s[k] != ':' by {
        assert(s[k] == origin[k]);
    }
    assert(is_first_where(s, 0, is_char(':'), i));
    lemma_first_where_unique(s, 0, is_char(':'), i);
    assert(s.subrange(0, i) =~= origin);
    assert(s.subrange(i + 1, s.len() as int) =~= data);
}

/// A message split into the subsystem that emitted it and its payload.
pub struct MessageFormat {
    pub origin: String,
    pub data: String,
}

impl MessageFormat {
    /// Splits `message` at its first `:`.
    pub fn new(message: String) -> (r: Result<MessageFormat, ParseError>)
        ensures
            match r {
                Ok(m) => message_parts(message@) == Some((m.origin@, m.data@)),
                Err(e) => message_parts(message@) is None && e == ParseError::MalformedMessage,
            },
    {
        let s = message.as_str();
        let cs = chars_of(s);
        let n = cs.len();
        let i = find_char(cs.as_slice(), ':', 0);
        if i >= n {
            return Err(ParseError::MalformedMessage);
        }
        let (a, b) = trim_bounds(cs.as_slice(), i + 1, n);
        let origin = substring(s, 0, i);
        let data = substring(s, a, b);
        Ok(MessageFormat { origin, data })
    }
}

} // verus!
