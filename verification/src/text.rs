//! Character-level helpers shared by the metadata scanners and parsers.
//!
//! Text is modelled as `Seq<char>`. The executable helpers work on a
//! `Vec<char>` taken once from a string and return positions in it.

use vstd::prelude::*;
use vstd::string::*;

verus! {

/// Whether a character has the Unicode `White_Space` property, as
/// `char::is_whitespace` reports it.
pub uninterp spec fn is_white_space(c: char) -> bool;

/// Position of the first `c` in `s` at or after `from`, or the length of
/// `s` where there is none.
pub open spec fn index_of(s: Seq<char>, c: char, from: int) -> int
    decreases s.len() - from,
{
    if from >= s.len() {
        s.len() as int
    } else if s[from] == c {
        from
    } else {
        index_of(s, c, from + 1)
    }
}

/// Whether `pat` stands in `s` at position `at`.
pub open spec fn matches_at(s: Seq<char>, at: int, pat: Seq<char>) -> bool {
    &&& 0 <= at
    &&& at + pat.len() <= s.len()
    &&& s.subrange(at, at + pat.len()) == pat
}

/// Position of the first occurrence of `pat` in `s` at or after `from`.
pub open spec fn first_match(s: Seq<char>, pat: Seq<char>, from: int) -> Option<int>
    decreases s.len() + 1 - from,
{
    if from < 0 || from > s.len() || from + pat.len() > s.len() {
        None
    } else if matches_at(s, from, pat) {
        Some(from)
    } else {
        first_match(s, pat, from + 1)
    }
}

/// Whether `pat` occurs anywhere in `s`.
pub open spec fn contains_text(s: Seq<char>, pat: Seq<char>) -> bool {
    first_match(s, pat, 0) is Some
}

/// Whether `s` begins with `pat`.
pub open spec fn starts_with(s: Seq<char>, pat: Seq<char>) -> bool {
    matches_at(s, 0, pat)
}

/// First position at or after `from` that holds no white space.
pub open spec fn skip_white(s: Seq<char>, from: int) -> int
    decreases s.len() - from,
{
    if 0 <= from < s.len() && is_white_space(s[from]) {
        skip_white(s, from + 1)
    } else {
        from
    }
}

/// End of the text that is left of `s[lo..to]` once trailing white space is
/// dropped.
pub open spec fn drop_white(s: Seq<char>, lo: int, to: int) -> int
    decreases to,
{
    if 0 <= lo < to <= s.len() && is_white_space(s[to - 1]) {
        drop_white(s, lo, to - 1)
    } else {
        to
    }
}

/// `s` without its leading and trailing white space.
pub open spec fn trimmed(s: Seq<char>) -> Seq<char> {
    let lo = skip_white(s, 0);
    s.subrange(lo, drop_white(s, lo, s.len() as int))
}

/// Length of `s` without its line terminator: one trailing line feed, and
/// one carriage return before it.
pub open spec fn line_end(s: Seq<char>) -> int {
    let n = s.len() as int;
    if n >= 1 && s[n - 1] == '\n' {
        if n >= 2 && s[n - 2] == '\r' {
            n - 2
        } else {
            n - 1
        }
    } else {
        n
    }
}

/// The bounds of field number `k` (from zero) among the fields that `sep`
/// separates in `s[from..end]`, or `None` where there are fewer fields.
pub open spec fn field_bounds(s: Seq<char>, sep: char, from: int, end: int, k: nat) -> Option<
    (int, int),
>
    decreases k,
{
    let stop = index_of(s.take(end), sep, from);
    if k == 0 {
        Some((from, stop))
    } else if stop >= end {
        None
    } else {
        field_bounds(s, sep, stop + 1, end, (k - 1) as nat)
    }
}

/// Column `k` (from zero) of a tab-delimited line, its line terminator set
/// aside, or `None` where the line has fewer columns.
pub open spec fn column(line: Seq<char>, k: nat) -> Option<Seq<char>> {
    match field_bounds(line, '\t', 0, line_end(line), k) {
        Some((a, b)) => Some(line.subrange(a, b)),
        None => None,
    }
}

/// The texts of `parts` one after another.
pub open spec fn concat(parts: Seq<Seq<char>>) -> Seq<char>
    decreases parts.len(),
{
    if parts.len() == 0 {
        Seq::empty()
    } else {
        concat(parts.drop_last()) + parts.last()
    }
}

/// The texts of `parts` with `sep` between each two neighbours.
pub open spec fn join(parts: Seq<Seq<char>>, sep: Seq<char>) -> Seq<char>
    decreases parts.len(),
{
    if parts.len() == 0 {
        Seq::empty()
    } else if parts.len() == 1 {
        parts[0]
    } else {
        join(parts.drop_last(), sep) + sep + parts.last()
    }
}

/// The views of a vector of strings.
pub open spec fn views(v: Seq<String>) -> Seq<Seq<char>> {
    Seq::new(v.len(), |i: int| v[i]@)
}

/// `index_of` lands on the first `c` at or after `from`.
pub proof fn lemma_index_of(s: Seq<char>, c: char, from: int)
    requires
        0 <= from <= s.len(),
    ensures
        from <= index_of(s, c, from) <= s.len(),
        index_of(s, c, from) < s.len() ==> s[index_of(s, c, from)] == c,
        forall|j: int| from <= j < index_of(s, c, from) ==> s[j] != c,
    decreases s.len() - from,
{
    if from < s.len() && s[from] != c {
        lemma_index_of(s, c, from + 1);
    }
}

/// `first_match` lands on an occurrence of the pattern at or after `from`.
pub proof fn lemma_first_match(s: Seq<char>, pat: Seq<char>, from: int)
    ensures
        first_match(s, pat, from) matches Some(at) ==> from <= at && matches_at(s, at, pat),
    decreases s.len() + 1 - from,
{
    if !(from < 0 || from > s.len() || from + pat.len() > s.len()) && !matches_at(s, from, pat) {
        lemma_first_match(s, pat, from + 1);
    }
}

/// Appends one character: `String::push` puts `c` at the end of `s`.
#[verifier::external_body]
pub(crate) fn push_char(s: &mut String, c: char)
    ensures
        final(s)@ == old(s)@.push(c),
{
    s.push(c)
}

/// Asks `char::is_whitespace` whether `c` is white space.
#[verifier::external_body]
pub(crate) fn char_is_whitespace(c: char) -> (b: bool)
    ensures
        b == is_white_space(c),
{
    c.is_whitespace()
}

/// The characters of `s`, in order.
pub fn chars_of(s: &str) -> (out: Vec<char>)
    ensures
        out@ == s@,
{
    broadcast use group_string_axioms;

    let mut out: Vec<char> = Vec::new();
    for c in it: s.chars()
        invariant
            it.seq() == s@,
            out@ == it.seq().take(it.index() as int),
    {
        out.push(c);
    }
    assert(out@ == s@);
    out
}

/// The string that holds `chars[from..to]`.
pub fn string_of(chars: &Vec<char>, from: usize, to: usize) -> (s: String)
    requires
        from <= to <= chars.len(),
    ensures
        s@ == chars@.subrange(from as int, to as int),
{
    let mut s = String::new();
    let mut i: usize = from;
    while i < to
        invariant
            from <= i <= to <= chars.len(),
            s@ == chars@.subrange(from as int, i as int),
        decreases to - i,
    {
        push_char(&mut s, chars[i]);
        i += 1;
        assert(chars@.subrange(from as int, i as int) == chars@.subrange(
            from as int,
            i as int - 1,
        ).push(chars@[i as int - 1]));
    }
    s
}

/// Finds the first `c` in `chars[..end]` at or after `from`; gives `end`
/// where there is none.
pub fn find_char(chars: &Vec<char>, c: char, from: usize, end: usize) -> (at: usize)
    requires
        from <= end <= chars.len(),
    ensures
        at == index_of(chars@.take(end as int), c, from as int),
        from <= at <= end,
        at < end ==> chars@[at as int] == c,
        forall|j: int| from <= j < at ==> chars@[j] != c,
{
    let ghost s = chars@.take(end as int);
    let mut i: usize = from;
    while i < end && chars[i] != c
        invariant
            from <= i <= end <= chars.len(),
            s == chars@.take(end as int),
            index_of(s, c, from as int) == index_of(s, c, i as int),
            forall|j: int| from <= j < i ==> chars@[j] != c,
        decreases end - i,
    {
        i += 1;
    }
    i
}

/// Whether `pat` stands in `chars` at position `at`.
pub fn has_at(chars: &Vec<char>, at: usize, pat: &Vec<char>) -> (found: bool)
    ensures
        found == matches_at(chars@, at as int, pat@),
{
    let n = pat.len();
    if at > chars.len() || n > chars.len() - at {
        return false;
    }
    let mut i: usize = 0;
    while i < n
        invariant
            i <= n == pat.len(),
            at + n <= chars.len(),
            chars@.subrange(at as int, at + i) == pat@.take(i as int),
        decreases n - i,
    {
        if chars[at + i] != pat[i] {
            assert(chars@.subrange(at as int, at + n)[i as int] != pat@[i as int]);
            return false;
        }
        i += 1;
        assert(chars@.subrange(at as int, at + i) == chars@.subrange(at as int, at + i - 1).push(
            chars@[at + i - 1],
        ));
        assert(pat@.take(i as int) == pat@.take(i as int - 1).push(pat@[i as int - 1]));
    }
    assert(pat@.take(n as int) == pat@);
    true
}

/// Finds the first occurrence of `pat` in `chars` at or after `from`.
pub fn find_text(chars: &Vec<char>, pat: &Vec<char>, from: usize) -> (at: Option<usize>)
    ensures
        match at {
            Some(i) => first_match(chars@, pat@, from as int) == Some(i as int) && from <= i && i
                + pat.len() <= chars.len(),
            None => first_match(chars@, pat@, from as int) is None,
        },
{
    if pat.len() > chars.len() || from > chars.len() - pat.len() {
        return None;
    }
    let last: usize = chars.len() - pat.len();
    let mut i: usize = from;
    loop
        invariant
            from <= i <= last,
            last == chars.len() - pat.len(),
            first_match(chars@, pat@, from as int) == first_match(chars@, pat@, i as int),
        decreases last - i,
    {
        if has_at(chars, i, pat) {
            return Some(i);
        }
        if i == last {
            assert(first_match(chars@, pat@, i + 1) is None);
            return None;
        }
        i += 1;
    }
}

/// The bounds of `chars` without leading and trailing white space.
pub fn trim_bounds(chars: &Vec<char>) -> (bounds: (usize, usize))
    ensures
        bounds.0 <= bounds.1 <= chars.len(),
        chars@.subrange(bounds.0 as int, bounds.1 as int) == trimmed(chars@),
{
    let n = chars.len();
    let mut lo: usize = 0;
    while lo < n && char_is_whitespace(chars[lo])
        invariant
            lo <= n == chars.len(),
            skip_white(chars@, 0) == skip_white(chars@, lo as int),
        decreases n - lo,
    {
        lo += 1;
    }
    let mut hi: usize = n;
    while lo < hi && char_is_whitespace(chars[hi - 1])
        invariant
            lo <= hi <= n == chars.len(),
            drop_white(chars@, lo as int, n as int) == drop_white(chars@, lo as int, hi as int),
        decreases hi,
    {
        hi -= 1;
    }
    (lo, hi)
}

/// `s` without its leading and trailing white space.
pub fn trim(s: &str) -> (t: String)
    ensures
        t@ == trimmed(s@),
{
    let chars = chars_of(s);
    let (lo, hi) = trim_bounds(&chars);
    string_of(&chars, lo, hi)
}

/// Length of `chars` without its line terminator.
pub fn line_end_of(chars: &Vec<char>) -> (end: usize)
    ensures
        end == line_end(chars@),
        end <= chars.len(),
{
    let n = chars.len();
    if n >= 1 && chars[n - 1] == '\n' {
        if n >= 2 && chars[n - 2] == '\r' {
            n - 2
        } else {
            n - 1
        }
    } else {
        n
    }
}

/// The bounds of field number `k` among the fields that `sep` separates in
/// `chars[from..end]`.
pub fn field_of(chars: &Vec<char>, sep: char, from: usize, end: usize, k: usize) -> (bounds: Option<
    (usize, usize),
>)
    requires
        from <= end <= chars.len(),
    ensures
        match bounds {
            Some((a, b)) => field_bounds(chars@, sep, from as int, end as int, k as nat) == Some(
                (a as int, b as int),
            ) && from <= a <= b <= end,
            None => field_bounds(chars@, sep, from as int, end as int, k as nat) is None,
        },
{
    let mut start: usize = from;
    let mut left: usize = k;
    loop
        invariant
            from <= start <= end <= chars.len(),
            left <= k,
            field_bounds(chars@, sep, from as int, end as int, k as nat) == field_bounds(
                chars@,
                sep,
                start as int,
                end as int,
                left as nat,
            ),
        decreases left,
    {
        let stop = find_char(chars, sep, start, end);
        if left == 0 {
            return Some((start, stop));
        }
        if stop >= end {
            return None;
        }
        start = stop + 1;
        left -= 1;
    }
}

/// Whether two character vectors hold the same text.
pub fn same_text(a: &Vec<char>, b: &Vec<char>) -> (same: bool)
    ensures
        same == (a@ == b@),
{
    if a.len() != b.len() {
        return false;
    }
    let found = has_at(a, 0, b);
    assert(a@.subrange(0, a@.len() as int) == a@);
    found
}

/// Whether two strings hold the same text.
pub fn str_eq(a: &str, b: &str) -> (same: bool)
    ensures
        same == (a@ == b@),
{
    let x = chars_of(a);
    let y = chars_of(b);
    same_text(&x, &y)
}

} // verus!
