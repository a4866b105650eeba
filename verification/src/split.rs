//! Text taken apart.

use vstd::prelude::*;
use vstd::slice::slice_subrange;

use crate::text::{first_index, index_of_char, lemma_first_index, lemma_first_index_is};
use crate::text::{string_of, texts};

verus! {

/// The pieces of `s` between the `c`s in it. There is one piece more than there are `c`s.
pub open spec fn split_on(s: Seq<char>, c: char) -> Seq<Seq<char>>
    decreases s.len(),
{
    let at = first_index(s, c) as int;
    if at >= s.len() {
        seq![s]
    } else {
        seq![s.take(at)] + split_on(s.skip(at + 1), c)
    }
}

/// `line` without one carriage return at its end.
pub open spec fn without_return(line: Seq<char>) -> Seq<char> {
    if line.len() > 0 && line.last() == '\r' {
        line.drop_last()
    } else {
        line
    }
}

/// The lines of `s`. A line ends at a line feed, or at a carriage return with a line feed behind
/// it, or at the end of `s`; none follows the last line feed.
pub open spec fn lines_of(s: Seq<char>) -> Seq<Seq<char>>
    decreases s.len(),
{
    let at = first_index(s, '\n') as int;
    if s.len() == 0 {
        Seq::empty()
    } else if at >= s.len() {
        seq![s]
    } else {
        seq![without_return(s.take(at))] + lines_of(s.skip(at + 1))
    }
}

/// The pieces of `s` between the `c`s in it.
pub fn split_text(s: &[char], c: char) -> (pieces: Vec<String>)
    ensures
        texts(pieces@) == split_on(s@, c),
{
    let mut pieces: Vec<String> = Vec::new();
    let mut rest: &[char] = s;
    loop
        invariant
            texts(pieces@) + split_on(rest@, c) == split_on(s@, c),
        decreases rest@.len(),
    {
        proof {
            lemma_first_index(rest@, c);
        }
        let ghost before = texts(pieces@);
        let at: usize = index_of_char(rest, c);
        if at >= rest.len() {
            pieces.push(string_of(rest));
            assert(texts(pieces@) =~= before + seq![rest@]);
            return pieces;
        }
        let piece = slice_subrange(rest, 0, at);
        let after = slice_subrange(rest, at + 1, rest.len());
        pieces.push(string_of(piece));
        assert(texts(pieces@) =~= before.push(piece@));
        assert(piece@ =~= rest@.take(at as int));
        assert(after@ =~= rest@.skip(at + 1));
        assert(texts(pieces@) + split_on(after@, c) =~= before + split_on(rest@, c));
        rest = after;
    }
}

/// The lines of `s`.
pub fn split_lines(s: &[char]) -> (lines: Vec<String>)
    ensures
        texts(lines@) == lines_of(s@),
{
    let mut lines: Vec<String> = Vec::new();
    let mut rest: &[char] = s;
    assert(texts(lines@) + lines_of(rest@) =~= lines_of(s@));
    loop
        invariant
            texts(lines@) + lines_of(rest@) == lines_of(s@),
        decreases rest@.len(),
    {
        proof {
            lemma_first_index(rest@, '\n');
        }
        let ghost before = texts(lines@);
        if rest.len() == 0 {
            assert(before + lines_of(rest@) =~= before);
            return lines;
        }
        let at: usize = index_of_char(rest, '\n');
        if at >= rest.len() {
            lines.push(string_of(rest));
            assert(texts(lines@) =~= before + seq![rest@]);
            return lines;
        }
        let whole = slice_subrange(rest, 0, at);
        let after = slice_subrange(rest, at + 1, rest.len());
        assert(whole@ =~= rest@.take(at as int));
        assert(after@ =~= rest@.skip(at + 1));
        let line = if at > 0 && whole[at - 1] == '\r' {
            slice_subrange(whole, 0, at - 1)
        } else {
            whole
        };
        assert(line@ =~= without_return(whole@));
        lines.push(string_of(line));
        assert(texts(lines@) =~= before.push(line@));
        assert(texts(lines@) + lines_of(after@) =~= before + lines_of(rest@));
        rest = after;
    }
}

/// No piece holds the character that `s` was split on.
pub proof fn law_pieces_are_free_of_the_separator(s: Seq<char>, c: char)
    ensures
        split_on(s, c).len() > 0,
        forall|i: int| 0 <= i < split_on(s, c).len() ==> !(#[trigger] split_on(s, c)[i]).contains(c),
    decreases s.len(),
{
    lemma_first_index(s, c);
    let at = first_index(s, c) as int;
    if at < s.len() {
        law_pieces_are_free_of_the_separator(s.skip(at + 1), c);
        let rest = split_on(s.skip(at + 1), c);
        assert forall|i: int| 0 <= i < split_on(s, c).len() implies !(#[trigger] split_on(
            s,
            c,
        )[i]).contains(c) by {
            if i > 0 {
                assert(split_on(s, c)[i] == rest[i - 1]);
            }
        }
    }
}

/// A piece at the end of a text stays a piece.
pub proof fn lemma_split_last(a: Seq<char>, c: char, b: Seq<char>)
    requires
        !b.contains(c),
    ensures
        split_on(a.push(c) + b, c) == split_on(a, c).push(b),
    decreases a.len(),
{
    let s = a.push(c) + b;
    lemma_first_index(a, c);
    lemma_first_index(b, c);
    assert(split_on(b, c) == seq![b]);
    let at = first_index(a, c) as int;
    if at >= a.len() {
        lemma_first_index_is(s, c, a.len() as int);
        assert(s.take(a.len() as int) =~= a);
        assert(s.skip(a.len() as int + 1) =~= b);
        assert(split_on(s, c) =~= split_on(a, c).push(b));
    } else {
        lemma_first_index_is(s, c, at);
        assert(s.take(at) =~= a.take(at));
        assert(s.skip(at + 1) =~= a.skip(at + 1).push(c) + b);
        lemma_split_last(a.skip(at + 1), c, b);
        assert(split_on(s, c) =~= split_on(a, c).push(b));
    }
}

} // verus!
