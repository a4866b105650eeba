//! Text helpers over characters and bytes.

use vstd::prelude::*;
use vstd::slice::slice_subrange;

verus! {

/// `String::push`: the character is appended at the end of the string.
pub assume_specification[ String::push ](s: &mut String, c: char)
    ensures
        final(s)@ == old(s)@.push(c),
;

// ---------------------------------------------------------------------------
// Strings and characters
// ---------------------------------------------------------------------------

/// The characters of `s`, in order.
pub fn chars_of(s: &str) -> (out: Vec<char>)
    ensures
        out@ == s@,
{
    let mut out: Vec<char> = Vec::new();
    for c in it: s.chars()
        invariant
            out@ == it.seq().take(it.index()),
            it.seq() == s@,
    {
        out.push(c);
    }
    assert(s@.take(s@.len() as int) =~= s@);
    out
}

/// The string made of `chars`.
pub fn string_of(chars: &[char]) -> (out: String)
    ensures
        out@ == chars@,
{
    let mut out: String = String::new();
    for i in 0..chars.len()
        invariant
            out@ == chars@.take(i as int),
    {
        out.push(chars[i]);
        assert(chars@.take(i + 1) =~= chars@.take(i as int).push(chars@[i as int]));
    }
    assert(chars@.take(chars@.len() as int) =~= chars@);
    out
}

/// Whether `a` and `b` hold the same characters.
pub fn same_text(a: &str, b: &str) -> (same: bool)
    ensures
        same == (a@ == b@),
{
    a.to_owned() == b.to_owned()
}

/// A copy of `bytes`.
pub fn copy_bytes(bytes: &[u8]) -> (out: Vec<u8>)
    ensures
        out@ == bytes@,
{
    let mut out: Vec<u8> = Vec::new();
    out.extend_from_slice(bytes);
    assert(out@ =~= bytes@);
    out
}

/// Whether two byte slices hold the same bytes.
pub fn same_bytes(a: &[u8], b: &[u8]) -> (same: bool)
    ensures
        same == (a@ == b@),
{
    if a.len() != b.len() {
        return false;
    }
    for i in 0..a.len()
        invariant
            a@.len() == b@.len(),
            forall|j: int| 0 <= j < i ==> a@[j] == b@[j],
    {
        if a[i] != b[i] {
            assert(a@[i as int] != b@[i as int]);
            return false;
        }
    }
    assert(a@ =~= b@);
    true
}

// ---------------------------------------------------------------------------
// Searching
// ---------------------------------------------------------------------------

/// `needle` stands in `hay` from position `at` on.
pub open spec fn occurs_at<T>(hay: Seq<T>, needle: Seq<T>, at: int) -> bool {
    &&& 0 <= at
    &&& at + needle.len() <= hay.len()
    &&& hay.subrange(at, at + needle.len()) == needle
}

/// `needle` stands somewhere in `hay`, in one piece.
pub open spec fn contains_run<T>(hay: Seq<T>, needle: Seq<T>) -> bool {
    exists|at: int| #[trigger] occurs_at(hay, needle, at)
}

/// `hay` begins with `needle`.
pub open spec fn begins_with<T>(hay: Seq<T>, needle: Seq<T>) -> bool {
    occurs_at(hay, needle, 0)
}

/// Whether `needle` stands in `hay` from position `at` on.
pub fn bytes_at(hay: &[u8], needle: &[u8], at: usize) -> (found: bool)
    ensures
        found == occurs_at(hay@, needle@, at as int),
{
    if at > hay.len() || needle.len() > hay.len() - at {
        return false;
    }
    let piece = slice_subrange(hay, at, at + needle.len());
    same_bytes(piece, needle)
}

/// Whether `needle` stands somewhere in `hay`.
pub fn contains_bytes(hay: &[u8], needle: &[u8]) -> (found: bool)
    ensures
        found == contains_run(hay@, needle@),
{
    if needle.len() > hay.len() {
        return false;
    }
    let last: usize = hay.len() - needle.len();
    let mut at: usize = 0;
    while at < last
        invariant
            at <= last,
            last == hay@.len() - needle@.len(),
            forall|j: int| 0 <= j < at ==> !occurs_at(hay@, needle@, j),
        decreases last - at,
    {
        if bytes_at(hay, needle, at) {
            return true;
        }
        at = at + 1;
    }
    bytes_at(hay, needle, last)
}

/// Whether the characters `needle` stand in `hay` from position `at` on.
fn chars_at(hay: &[char], needle: &[char], at: usize) -> (found: bool)
    ensures
        found == occurs_at(hay@, needle@, at as int),
{
    if at > hay.len() || needle.len() > hay.len() - at {
        return false;
    }
    for i in 0..needle.len()
        invariant
            at + needle@.len() <= hay@.len() <= usize::MAX,
            forall|j: int| 0 <= j < i ==> hay@[at + j] == needle@[j],
    {
        if hay[at + i] != needle[i] {
            assert(hay@.subrange(at as int, at + needle@.len())[i as int] != needle@[i as int]);
            return false;
        }
    }
    assert(hay@.subrange(at as int, at + needle@.len()) =~= needle@);
    true
}

/// Whether the characters `needle` stand somewhere in `hay`.
pub fn contains_chars(hay: &[char], needle: &[char]) -> (found: bool)
    ensures
        found == contains_run(hay@, needle@),
{
    if needle.len() > hay.len() {
        return false;
    }
    let last: usize = hay.len() - needle.len();
    let mut at: usize = 0;
    while at < last
        invariant
            at <= last,
            last == hay@.len() - needle@.len(),
            forall|j: int| 0 <= j < at ==> !occurs_at(hay@, needle@, j),
        decreases last - at,
    {
        if chars_at(hay, needle, at) {
            return true;
        }
        at = at + 1;
    }
    chars_at(hay, needle, last)
}

/// Whether the text `needle` stands somewhere in `hay`.
pub fn contains_text(hay: &str, needle: &str) -> (found: bool)
    ensures
        found == contains_run(hay@, needle@),
{
    let hay_chars = chars_of(hay);
    let needle_chars = chars_of(needle);
    contains_chars(hay_chars.as_slice(), needle_chars.as_slice())
}

/// Position of the first `c` in `s`, or the length of `s` where there is none.
pub open spec fn first_index<T>(s: Seq<T>, c: T) -> nat
    decreases s.len(),
{
    if s.len() == 0 || s[0] == c {
        0
    } else {
        1 + first_index(s.drop_first(), c)
    }
}

/// What [`first_index`] is: no `c` before it, and `c` there unless it is the end.
pub proof fn lemma_first_index<T>(s: Seq<T>, c: T)
    ensures
        first_index(s, c) <= s.len(),
        forall|j: int| 0 <= j < first_index(s, c) ==> s[j] != c,
        first_index(s, c) < s.len() ==> s[first_index(s, c) as int] == c,
    decreases s.len(),
{
    if s.len() != 0 && s[0] != c {
        let t = s.drop_first();
        lemma_first_index(t, c);
        assert forall|j: int| 0 <= j < first_index(s, c) implies s[j] != c by {
            if j > 0 {
                assert(t[j - 1] == s[j]);
            }
        }
    }
}

/// [`first_index`] is the only position with those properties.
pub proof fn lemma_first_index_is<T>(s: Seq<T>, c: T, at: int)
    requires
        0 <= at <= s.len(),
        forall|j: int| 0 <= j < at ==> s[j] != c,
        at < s.len() ==> s[at] == c,
    ensures
        first_index(s, c) == at,
{
    lemma_first_index(s, c);
    let k = first_index(s, c) as int;
    if k < at {
        assert(s[k] == c);
    }
}

/// Position of the first `c` in `chars`, or the length where there is none.
pub fn index_of_char(chars: &[char], c: char) -> (at: usize)
    ensures
        at == first_index(chars@, c),
        at <= chars@.len(),
{
    let mut at: usize = 0;
    while at < chars.len() && chars[at] != c
        invariant
            at <= chars@.len(),
            forall|j: int| 0 <= j < at ==> chars@[j] != c,
        decreases chars@.len() - at,
    {
        at = at + 1;
    }
    proof {
        lemma_first_index_is(chars@, c, at as int);
    }
    at
}

// ---------------------------------------------------------------------------
// Trimming
// ---------------------------------------------------------------------------

/// The characters with Unicode's `White_Space` property.
pub open spec fn is_space(c: char) -> bool {
    ||| '\u{9}' <= c <= '\u{d}'
    ||| c == ' '
    ||| c == '\u{85}'
    ||| c == '\u{a0}'
    ||| c == '\u{1680}'
    ||| '\u{2000}' <= c <= '\u{200a}'
    ||| c == '\u{2028}'
    ||| c == '\u{2029}'
    ||| c == '\u{202f}'
    ||| c == '\u{205f}'
    ||| c == '\u{3000}'
}

/// Whether `c` has Unicode's `White_Space` property.
pub fn space_char(c: char) -> (space: bool)
    ensures
        space == is_space(c),
{
    ('\u{9}' <= c && c <= '\u{d}') || c == ' ' || c == '\u{85}' || c == '\u{a0}'
        || c == '\u{1680}' || ('\u{2000}' <= c && c <= '\u{200a}') || c == '\u{2028}'
        || c == '\u{2029}' || c == '\u{202f}' || c == '\u{205f}' || c == '\u{3000}'
}

/// `s` without its leading white space.
pub open spec fn trimmed_start(s: Seq<char>) -> Seq<char>
    decreases s.len(),
{
    if s.len() > 0 && is_space(s[0]) {
        trimmed_start(s.drop_first())
    } else {
        s
    }
}

/// `s` without its trailing white space.
pub open spec fn trimmed_end(s: Seq<char>) -> Seq<char>
    decreases s.len(),
{
    if s.len() > 0 && is_space(s.last()) {
        trimmed_end(s.drop_last())
    } else {
        s
    }
}

/// `s` without white space at either end.
pub open spec fn trimmed(s: Seq<char>) -> Seq<char> {
    trimmed_end(trimmed_start(s))
}

/// `s` without the `c`s that it begins with.
pub open spec fn without_leading(s: Seq<char>, c: char) -> Seq<char>
    decreases s.len(),
{
    if s.len() > 0 && s[0] == c {
        without_leading(s.drop_first(), c)
    } else {
        s
    }
}

/// `s` without the `c`s that it ends with.
pub open spec fn without_trailing(s: Seq<char>, c: char) -> Seq<char>
    decreases s.len(),
{
    if s.len() > 0 && s.last() == c {
        without_trailing(s.drop_last(), c)
    } else {
        s
    }
}

/// `s` without its leading white space.
pub fn trim_start(s: &[char]) -> (out: &[char])
    ensures
        out@ == trimmed_start(s@),
{
    let mut at: usize = 0;
    assert(s@.skip(0) =~= s@);
    while at < s.len() && space_char(s[at])
        invariant
            at <= s@.len(),
            trimmed_start(s@.skip(at as int)) == trimmed_start(s@),
        decreases s@.len() - at,
    {
        assert(s@.skip(at as int).drop_first() =~= s@.skip(at + 1));
        at = at + 1;
    }
    slice_subrange(s, at, s.len())
}

/// `s` without its trailing white space.
pub fn trim_end(s: &[char]) -> (out: &[char])
    ensures
        out@ == trimmed_end(s@),
{
    let mut end: usize = s.len();
    assert(s@.take(s@.len() as int) =~= s@);
    while end > 0 && space_char(s[end - 1])
        invariant
            end <= s@.len(),
            trimmed_end(s@.take(end as int)) == trimmed_end(s@),
        decreases end,
    {
        assert(s@.take(end as int).drop_last() =~= s@.take(end - 1));
        end = end - 1;
    }
    slice_subrange(s, 0, end)
}

/// `s` without white space at either end.
pub fn trim(s: &[char]) -> (out: &[char])
    ensures
        out@ == trimmed(s@),
{
    trim_end(trim_start(s))
}

/// `s` without the `c`s that it begins with.
pub fn skip_leading(s: &[char], c: char) -> (out: &[char])
    ensures
        out@ == without_leading(s@, c),
{
    let mut at: usize = 0;
    assert(s@.skip(0) =~= s@);
    while at < s.len() && s[at] == c
        invariant
            at <= s@.len(),
            without_leading(s@.skip(at as int), c) == without_leading(s@, c),
        decreases s@.len() - at,
    {
        assert(s@.skip(at as int).drop_first() =~= s@.skip(at + 1));
        at = at + 1;
    }
    slice_subrange(s, at, s.len())
}

/// `s` without the `c`s that it ends with.
pub fn skip_trailing(s: &[char], c: char) -> (out: &[char])
    ensures
        out@ == without_trailing(s@, c),
{
    let mut end: usize = s.len();
    assert(s@.take(s@.len() as int) =~= s@);
    while end > 0 && s[end - 1] == c
        invariant
            end <= s@.len(),
            without_trailing(s@.take(end as int), c) == without_trailing(s@, c),
        decreases end,
    {
        assert(s@.take(end as int).drop_last() =~= s@.take(end - 1));
        end = end - 1;
    }
    slice_subrange(s, 0, end)
}

// ---------------------------------------------------------------------------
// Joining
// ---------------------------------------------------------------------------

/// The characters of each string.
pub open spec fn texts(parts: Seq<String>) -> Seq<Seq<char>> {
    parts.map_values(|s: String| s@)
}

/// `parts` in order, with `sep` between each two.
pub open spec fn joined(parts: Seq<Seq<char>>, sep: Seq<char>) -> Seq<char>
    decreases parts.len(),
{
    if parts.len() == 0 {
        Seq::empty()
    } else if parts.len() == 1 {
        parts[0]
    } else {
        joined(parts.drop_last(), sep) + sep + parts.last()
    }
}

/// `parts` in order, with `sep` between each two.
pub fn join(parts: &Vec<String>, sep: &str) -> (out: String)
    ensures
        out@ == joined(texts(parts@), sep@),
{
    let mut out: String = String::new();
    let ghost all = texts(parts@);
    for i in 0..parts.len()
        invariant
            all == texts(parts@),
            out@ == joined(all.take(i as int), sep@),
    {
        if i > 0 {
            out.append(sep);
        }
        out.append(parts[i].as_str());
        assert(all.take(i + 1).drop_last() =~= all.take(i as int));
        assert(out@ =~= joined(all.take(i + 1), sep@));
    }
    assert(all.take(parts@.len() as int) =~= all);
    out
}

// ---------------------------------------------------------------------------
// Case
// ---------------------------------------------------------------------------

/// `c`, with `A` to `Z` made lower case and nothing else changed.
pub open spec fn ascii_lower(c: char) -> char {
    if 'A' <= c <= 'Z' {
        (c as u32 + 32) as char
    } else {
        c
    }
}

/// `s` with its ASCII letters made lower case.
pub fn lower_chars(s: &[char]) -> (out: Vec<char>)
    ensures
        out@ == s@.map_values(|c: char| ascii_lower(c)),
{
    let mut out: Vec<char> = Vec::new();
    for i in 0..s.len()
        invariant
            out@.len() == i,
            forall|j: int| 0 <= j < i ==> out@[j] == ascii_lower(s@[j]),
    {
        let c = s[i];
        if 'A' <= c && c <= 'Z' {
            out.push((c as u8 + 32) as char);
        } else {
            out.push(c);
        }
    }
    assert(out@ =~= s@.map_values(|c: char| ascii_lower(c)));
    out
}

} // verus!
