//! Character-level helpers over `Seq<char>`: searching, prefix and infix tests,
//! and whitespace trimming.
use vstd::prelude::*;

verus! {

broadcast use vstd::string::group_string_axioms;

/// `i` is the first position at or after `from` whose character satisfies `p`,
/// or `s.len()` when there is none.
pub open spec fn is_first_where(s: Seq<char>, from: int, p: spec_fn(char) -> bool, i: int) -> bool {
    &&& from <= i <= s.len()
    &&& forall|k: int| from <= k < i ==> !p(#[trigger] s[k])
    &&& i < s.len() ==> p(s[i])
}

/// The first position at or after `from` whose character satisfies `p`
/// (`s.len()` when there is none).
pub open spec fn first_where(s: Seq<char>, from: int, p: spec_fn(char) -> bool) -> int {
    choose|i: int| is_first_where(s, from, p, i)
}

/// At most one position is first.
pub proof fn lemma_first_where_unique(s: Seq<char>, from: int, p: spec_fn(char) -> bool, i: int)
    requires
        is_first_where(s, from, p, i),
    ensures
        first_where(s, from, p) == i,
{
    let j = first_where(s, from, p);
    assert(is_first_where(s, from, p, j));
    if j < i {
        assert(!p(s[j]));
    } else if i < j {
        assert(!p(s[i]));
    }
}

/// The test "is the character `c`".
pub open spec fn is_char(c: char) -> spec_fn(char) -> bool {
    |x: char| x == c
}

/// The test "is not whitespace".
pub open spec fn not_ws() -> spec_fn(char) -> bool {
    |x: char| !is_ws(x)
}

/// The first occurrence of `c` at or after `from` (`s.len()` when there is none).
pub open spec fn find_from(s: Seq<char>, c: char, from: int) -> int {
    first_where(s, from, is_char(c))
}

/// `t` occurs in `s` starting at position `i`.
pub open spec fn occurs_at(s: Seq<char>, t: Seq<char>, i: int) -> bool {
    0 <= i && i + t.len() <= s.len() && s.subrange(i, i + t.len()) == t
}

/// `t` occurs somewhere in `s`.
pub open spec fn contains(s: Seq<char>, t: Seq<char>) -> bool {
    exists|i: int| occurs_at(s, t, i)
}

/// `i` is the first position at which `t` occurs in `s`.
pub open spec fn is_first_occurrence(s: Seq<char>, t: Seq<char>, i: int) -> bool {
    occurs_at(s, t, i) && forall|k: int| 0 <= k < i ==> !occurs_at(s, t, k)
}

/// At most one position is the first occurrence.
pub proof fn lemma_first_occurrence_unique(s: Seq<char>, t: Seq<char>, i: int)
    requires
        is_first_occurrence(s, t, i),
    ensures
        (choose|j: int| is_first_occurrence(s, t, j)) == i,
{
    let j = choose|j: int| is_first_occurrence(s, t, j);
    assert(is_first_occurrence(s, t, j));
}

/// `s` begins with `t`.
pub open spec fn starts_with(s: Seq<char>, t: Seq<char>) -> bool {
    occurs_at(s, t, 0)
}

/// Unicode `White_Space`, the set that `char::is_whitespace` tests.
pub open spec fn is_ws(c: char) -> bool {
    ('\t' <= c <= '\r') || c == ' ' || c == '\u{85}' || c == '\u{a0}' || c == '\u{1680}'
        || ('\u{2000}' <= c <= '\u{200a}') || c == '\u{2028}' || c == '\u{2029}'
        || c == '\u{202f}' || c == '\u{205f}' || c == '\u{3000}'
}

/// Where the text of `s` begins once leading whitespace is skipped.
pub open spec fn trim_start_index(s: Seq<char>) -> int {
    first_where(s, 0, not_ws())
}

/// `j` is where the text of `s` ends once trailing whitespace, but nothing
/// before `start`, is dropped.
pub open spec fn is_trim_end(s: Seq<char>, start: int, j: int) -> bool {
    &&& start <= j <= s.len()
    &&& forall|k: int| j <= k < s.len() ==> is_ws(#[trigger] s[k])
    &&& j > start ==> !is_ws(s[j - 1])
}

/// Where the text of `s` ends once trailing whitespace is dropped.
pub open spec fn trim_end_index(s: Seq<char>) -> int {
    choose|j: int| is_trim_end(s, trim_start_index(s), j)
}

/// `s` without leading and trailing whitespace.
pub open spec fn trim(s: Seq<char>) -> Seq<char> {
    s.subrange(trim_start_index(s), trim_end_index(s))
}

proof fn lemma_trim_end_unique(s: Seq<char>, start: int, j: int)
    requires
        is_trim_end(s, start, j),
    ensures
        (choose|k: int| is_trim_end(s, start, k)) == j,
{
    let k = choose|k: int| is_trim_end(s, start, k);
    assert(is_trim_end(s, start, k));
    if k < j {
        assert(is_ws(s[j - 1]));
    } else if j < k {
        assert(is_ws(s[k - 1]));
    }
}

/// Whether `c` is whitespace in the sense of `char::is_whitespace`.
pub fn is_whitespace(c: char) -> (r: bool)
    ensures
        r == is_ws(c),
{
    ('\t' <= c && c <= '\r') || c == ' ' || c == '\u{85}' || c == '\u{a0}' || c == '\u{1680}'
        || ('\u{2000}' <= c && c <= '\u{200a}') || c == '\u{2028}' || c == '\u{2029}'
        || c == '\u{202f}' || c == '\u{205f}' || c == '\u{3000}'
}

/// The characters of `s`, in order.
pub fn chars_of(s: &str) -> (r: Vec<char>)
    ensures
        r@ == s@,
{
    let n = s.unicode_len();
    let mut v: Vec<char> = Vec::with_capacity(n);
    let mut i: usize = 0;
    while i < n
        invariant
            n == s@.len(),
            i <= n,
            v@ == s@.subrange(0, i as int),
        decreases n - i,
    {
        v.push(s.get_char(i));
        i = i + 1;
    }
    v
}

/// The first occurrence of `c` in `s` at or after `from` (`s.len()` when there is none).
pub fn find_char(s: &[char], c: char, from: usize) -> (r: usize)
    requires
        from <= s@.len(),
    ensures
        r == find_from(s@, c, from as int),
        from <= r <= s@.len(),
{
    let mut i: usize = from;
    while i < s.len() && s[i] != c
        invariant
            from <= i <= s@.len(),
            forall|k: int| from <= k < i ==> s@[k] != c,
        decreases s@.len() - i,
    {
        i = i + 1;
    }
    proof {
        let p = is_char(c);
        assert(is_first_where(s@, from as int, p, i as int));
        lemma_first_where_unique(s@, from as int, p, i as int);
    }
    i
}

/// Whether `t` occurs in `s` starting at position `i`.
pub fn occurs_at_exec(s: &[char], t: &[char], i: usize) -> (r: bool)
    ensures
        r == occurs_at(s@, t@, i as int),
{
    if i > s.len() || t.len() > s.len() - i {
        return false;
    }
    let mut k: usize = 0;
    while k < t.len()
        invariant
            i + t@.len() <= s@.len(),
            s@.len() <= usize::MAX,
            k <= t@.len(),
            forall|m: int| 0 <= m < k ==> s@[i + m] == t@[m],
        decreases t@.len() - k,
    {
        if s[i + k] != t[k] {
            assert(s@.subrange(i as int, i + t@.len())[k as int] != t@[k as int]);
            return false;
        }
        k = k + 1;
    }
    assert(s@.subrange(i as int, i + t@.len()) =~= t@);
    true
}

/// Whether `s` begins with `t`.
pub fn starts_with_exec(s: &[char], t: &[char]) -> (r: bool)
    ensures
        r == starts_with(s@, t@),
{
    occurs_at_exec(s, t, 0)
}

/// The first position at which `t` occurs in `s`, if any.
pub fn find_str(s: &[char], t: &[char]) -> (r: Option<usize>)
    ensures
        r matches Some(i) ==> is_first_occurrence(s@, t@, i as int) && i <= s@.len(),
        r is None ==> !contains(s@, t@),
{
    let mut i: usize = 0;
    while i < s.len()
        invariant
            i <= s@.len(),
            forall|k: int| 0 <= k < i ==> !occurs_at(s@, t@, k),
        decreases s@.len() - i,
    {
        if occurs_at_exec(s, t, i) {
            return Some(i);
        }
        i = i + 1;
    }
    if occurs_at_exec(s, t, i) {
        return Some(i);
    }
    assert forall|k: int| !occurs_at(s@, t@, k) by {
        if 0 <= k < i {
        }
    }
    None
}

/// Whether `t` occurs somewhere in `s`.
pub fn contains_exec(s: &[char], t: &[char]) -> (r: bool)
    ensures
        r == contains(s@, t@),
{
    find_str(s, t).is_some()
}

/// The bounds `(a, b)` within `s` of `s[lo..hi]` without leading and trailing
/// whitespace.
pub fn trim_bounds(s: &[char], lo: usize, hi: usize) -> (r: (usize, usize))
    requires
        lo <= hi <= s@.len(),
    ensures
        lo <= r.0 <= r.1 <= hi,
        s@.subrange(r.0 as int, r.1 as int) == trim(s@.subrange(lo as int, hi as int)),
{
    let ghost u = s@.subrange(lo as int, hi as int);
    let mut a: usize = lo;
    while a < hi && is_whitespace(s[a])
        invariant
            lo <= a <= hi <= s@.len(),
            u == s@.subrange(lo as int, hi as int),
            forall|k: int| 0 <= k < a - lo ==> is_ws(#[trigger] u[k]),
        decreases hi - a,
    {
        a = a + 1;
    }
    proof {
        let p = not_ws();
        assert(is_first_where(u, 0, p, a - lo));
        lemma_first_where_unique(u, 0, p, a - lo);
    }
    let mut b: usize = hi;
    while b > a && is_whitespace(s[b - 1])
        invariant
            lo <= a <= b <= hi <= s@.len(),
            u == s@.subrange(lo as int, hi as int),
            forall|k: int| b - lo <= k < u.len() ==> is_ws(#[trigger] u[k]),
        decreases b,
    {
        b = b - 1;
    }
    proof {
        assert(is_trim_end(u, a - lo, b - lo));
        lemma_trim_end_unique(u, a - lo, b - lo);
        assert(s@.subrange(a as int, b as int) =~= u.subrange(a - lo, b - lo));
    }
    (a, b)
}

/// The characters of `s` from position `a` up to `b`, as a new string.
pub fn substring(s: &str, a: usize, b: usize) -> (r: String)
    requires
        a <= b <= s@.len(),
    ensures
        r@ == s@.subrange(a as int, b as int),
{
    s.substring_char(a, b).to_string()
}

} // verus!
