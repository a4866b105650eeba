//! What holds of numbers in text, and of text taken apart and put together.

use vstd::prelude::*;

use crate::numbers::{decimal, digit_char, digit_value, digits_value, is_digit, number_in};
use crate::numbers::{padded_end, padded_start};
use crate::split::{lemma_split_last, lines_of, split_on};
use crate::text::{is_space, joined, lemma_first_index, lemma_first_index_is, trimmed};
use crate::text::{trimmed_end, trimmed_start, without_trailing};

verus! {

// ---------------------------------------------------------------------------
// Numbers
// ---------------------------------------------------------------------------

/// A decimal number is made of digits, starts with a zero only where it is zero, and has the value
/// it was made from.
pub proof fn law_decimal_digits(n: nat)
    ensures
        decimal(n).len() > 0,
        forall|i: int| 0 <= i < decimal(n).len() ==> '0' <= #[trigger] decimal(n)[i] <= '9',
        n > 0 ==> decimal(n)[0] != '0',
        n < 10 ==> decimal(n).len() == 1,
        digits_value(decimal(n), 10) == n,
    decreases n,
{
    let text = decimal(n);
    if n < 10 {
        assert(text.drop_last() =~= Seq::empty());
        assert(digit_value(digit_char(n)) == Some(n));
        reveal_with_fuel(digits_value, 2);
    } else {
        let head = decimal(n / 10);
        law_decimal_digits(n / 10);
        assert(text.drop_last() =~= head);
        assert(text[0] == head[0]);
        assert(digit_value(digit_char(n % 10)) == Some(n % 10));
        assert forall|i: int| 0 <= i < text.len() implies '0' <= #[trigger] text[i] <= '9' by {
            if i < head.len() {
                assert(text[i] == head[i]);
            }
        }
    }
}

/// Every number is read back from its decimal digits, up to the largest that is asked for.
pub proof fn law_decimal_read_back(n: nat, max: nat)
    ensures
        number_in(decimal(n), 10, max) == if n <= max {
            Some(n)
        } else {
            None
        },
{
    law_decimal_digits(n);
    let text = decimal(n);
    assert(text[0] != '+');
    assert forall|i: int| 0 <= i < text.len() implies is_digit(#[trigger] text[i], 10) by {
        assert('0' <= text[i] <= '9');
    }
}

/// Different numbers have different digits.
pub proof fn law_decimals_differ(a: nat, b: nat)
    requires
        decimal(a) == decimal(b),
    ensures
        a == b,
{
    law_decimal_digits(a);
    law_decimal_digits(b);
}

/// Zeros before a number do not change it.
pub proof fn law_leading_zeros(s: Seq<char>, zeros: Seq<char>)
    requires
        forall|i: int| 0 <= i < zeros.len() ==> #[trigger] zeros[i] == '0',
    ensures
        digits_value(zeros + s, 10) == digits_value(s, 10),
    decreases zeros.len() + s.len(),
{
    let all = zeros + s;
    if s.len() > 0 {
        assert(all.drop_last() =~= zeros + s.drop_last());
        law_leading_zeros(s.drop_last(), zeros);
    } else if zeros.len() > 0 {
        assert(all.drop_last() =~= zeros.drop_last() + s);
        law_leading_zeros(s, zeros.drop_last());
        assert(all.last() == '0');
    }
}

/// A plus sign before a number that starts with a digit does not change it, and a minus sign makes
/// it none.
pub proof fn law_signs(s: Seq<char>, radix: nat, max: nat)
    requires
        s.len() > 0,
        s[0] != '+',
    ensures
        number_in(seq!['+'] + s, radix, max) == number_in(s, radix, max),
        number_in(seq!['-'] + s, radix, max) is None,
        number_in(Seq::<char>::empty(), radix, max) is None,
{
    assert((seq!['+'] + s).drop_first() =~= s);
    let minus = seq!['-'] + s;
    assert(minus[0] == '-');
    assert(!is_digit(minus[0], radix));
}

/// Hexadecimal digits have one value in either case.
pub proof fn law_hexadecimal_digits(c: char)
    ensures
        '0' <= c <= '9' ==> digit_value(c) == Some((c as u32 - 48) as nat),
        'a' <= c <= 'f' ==> digit_value(c) == Some((c as u32 - 87) as nat),
        'A' <= c <= 'F' ==> digit_value(c) == Some((c as u32 - 55) as nat),
        is_digit(c, 16) <==> '0' <= c <= '9' || 'a' <= c <= 'f' || 'A' <= c <= 'F',
        is_digit(c, 8) <==> '0' <= c <= '7',
        is_digit(c, 10) <==> '0' <= c <= '9',
{
}

// ---------------------------------------------------------------------------
// Width
// ---------------------------------------------------------------------------

/// Text that is set to a width is brought to it, or left as it is where it is longer; what is put
/// before it is the character asked for.
pub proof fn law_padded_start(s: Seq<char>, c: char, width: int)
    ensures
        ({
            let out = padded_start(s, c, width);
            let more = out.len() - s.len();
            &&& out.len() == if s.len() >= width {
                s.len() as int
            } else {
                width
            }
            &&& out.skip(more) == s
            &&& forall|i: int| 0 <= i < more ==> #[trigger] out[i] == c
        }),
{
    let out = padded_start(s, c, width);
    assert(out.skip(out.len() - s.len()) =~= s);
}

/// The same of text with spaces after it.
pub proof fn law_padded_end(s: Seq<char>, width: int)
    ensures
        ({
            let out = padded_end(s, width);
            &&& out.len() == if s.len() >= width {
                s.len() as int
            } else {
                width
            }
            &&& out.take(s.len() as int) == s
            &&& forall|i: int| s.len() <= i < out.len() ==> #[trigger] out[i] == ' '
        }),
{
    let out = padded_end(s, width);
    assert(out.take(s.len() as int) =~= s);
}

// ---------------------------------------------------------------------------
// White space
// ---------------------------------------------------------------------------

/// Of the ASCII characters, white space is the space and those from the tab to the carriage
/// return.
pub proof fn law_ascii_spaces(c: char)
    requires
        (c as u32) < 128,
    ensures
        is_space(c) <==> c == ' ' || 9 <= c as u32 <= 13,
{
}

proof fn lemma_trim_start(a: Seq<char>, s: Seq<char>)
    requires
        forall|i: int| 0 <= i < a.len() ==> is_space(#[trigger] a[i]),
        s.len() > 0 ==> !is_space(s[0]),
    ensures
        trimmed_start(a + s) == s,
    decreases a.len(),
{
    if a.len() == 0 {
        assert(a + s =~= s);
    } else {
        assert((a + s).drop_first() =~= a.drop_first() + s);
        assert((a + s)[0] == a[0]);
        assert forall|i: int| 0 <= i < a.drop_first().len() implies is_space(
            #[trigger] a.drop_first()[i],
        ) by {
            assert(a.drop_first()[i] == a[i + 1]);
        }
        lemma_trim_start(a.drop_first(), s);
    }
}

proof fn lemma_trim_end(s: Seq<char>, b: Seq<char>)
    requires
        forall|i: int| 0 <= i < b.len() ==> is_space(#[trigger] b[i]),
        s.len() > 0 ==> !is_space(s.last()),
    ensures
        trimmed_end(s + b) == s,
    decreases b.len(),
{
    if b.len() == 0 {
        assert(s + b =~= s);
    } else {
        assert((s + b).drop_last() =~= s + b.drop_last());
        assert((s + b).last() == b[b.len() - 1]);
        lemma_trim_end(s, b.drop_last());
    }
}

/// White space around a text is taken off, and nothing else.
pub proof fn law_trimmed(a: Seq<char>, s: Seq<char>, b: Seq<char>)
    requires
        forall|i: int| 0 <= i < a.len() ==> is_space(#[trigger] a[i]),
        forall|i: int| 0 <= i < b.len() ==> is_space(#[trigger] b[i]),
        s.len() > 0 ==> !is_space(s[0]) && !is_space(s.last()),
    ensures
        trimmed(a + s + b) == s,
        s.len() > 0 ==> trimmed_start(a + s + b) == s + b,
{
    if s.len() > 0 {
        assert(a + s + b =~= a + (s + b));
        lemma_trim_start(a, s + b);
        lemma_trim_end(s, b);
    } else {
        let none = Seq::<char>::empty();
        let all = a + b;
        assert(a + s + b =~= all + none);
        assert forall|i: int| 0 <= i < all.len() implies is_space(#[trigger] all[i]) by {
            if i < a.len() {
                assert(all[i] == a[i]);
            } else {
                assert(all[i] == b[i - a.len()]);
            }
        }
        lemma_trim_start(all, none);
        assert(s =~= none);
    }
}

/// Characters of one kind at the end of a text are taken off, and nothing else.
pub proof fn law_without_trailing(s: Seq<char>, c: char, n: nat)
    requires
        s.len() > 0 ==> s.last() != c,
    ensures
        without_trailing(s + Seq::new(n, |i: int| c), c) == s,
    decreases n,
{
    let all = s + Seq::new(n, |i: int| c);
    if n == 0 {
        assert(all =~= s);
    } else {
        let m = (n - 1) as nat;
        assert(all.drop_last() =~= s + Seq::new(m, |i: int| c));
        law_without_trailing(s, c, m);
    }
}

// ---------------------------------------------------------------------------
// Parts and lines
// ---------------------------------------------------------------------------

/// Parts that hold no separator are read back from the text that they are joined to.
pub proof fn law_parts_read_back(parts: Seq<Seq<char>>, c: char)
    requires
        parts.len() > 0,
        forall|i: int| 0 <= i < parts.len() ==> !(#[trigger] parts[i]).contains(c),
    ensures
        split_on(joined(parts, seq![c]), c) == parts,
    decreases parts.len(),
{
    let last = parts.last();
    assert(!parts[parts.len() - 1].contains(c));
    if parts.len() == 1 {
        lemma_first_index(last, c);
        assert(split_on(last, c) =~= parts);
    } else {
        let before = parts.drop_last();
        assert forall|i: int| 0 <= i < before.len() implies !(#[trigger] before[i]).contains(c) by {
            assert(before[i] == parts[i]);
        }
        law_parts_read_back(before, c);
        lemma_split_last(joined(before, seq![c]), c, last);
        assert(joined(parts, seq![c]) =~= joined(before, seq![c]).push(c) + last);
        assert(before.push(last) =~= parts);
    }
}

/// A line is read up to its line feed, without a carriage return before it, and the lines after it
/// follow.
pub proof fn law_lines(line: Seq<char>, rest: Seq<char>)
    requires
        !line.contains('\n'),
        line.len() > 0 ==> line.last() != '\r',
    ensures
        lines_of(line.push('\n') + rest) == seq![line] + lines_of(rest),
        lines_of(line.push('\r').push('\n') + rest) == seq![line] + lines_of(rest),
        lines_of(line) == if line.len() == 0 {
            Seq::empty()
        } else {
            seq![line]
        },
{
    let n = line.len() as int;
    let plain = line.push('\n') + rest;
    lemma_first_index_is(plain, '\n', n);
    assert(plain.take(n) =~= line);
    assert(plain.skip(n + 1) =~= rest);
    let dos = line.push('\r').push('\n') + rest;
    assert forall|j: int| 0 <= j < n + 1 implies dos[j] != '\n' by {
        if j < n {
            assert(dos[j] == line[j]);
        }
    }
    lemma_first_index_is(dos, '\n', n + 1);
    assert(dos.take(n + 1) =~= line.push('\r'));
    assert(dos.take(n + 1).drop_last() =~= line);
    assert(dos.skip(n + 2) =~= rest);
    lemma_first_index(line, '\n');
}

/// Of several carriage returns before a line feed only the last belongs to the end of the line, and
/// one at the end of a text without a line feed belongs to the text.
pub proof fn law_carriage_returns(line: Seq<char>, rest: Seq<char>)
    requires
        !line.contains('\n'),
    ensures
        lines_of(line.push('\r').push('\n') + rest) == seq![line] + lines_of(rest),
        lines_of(line.push('\r')) == seq![line.push('\r')],
        lines_of(Seq::empty()) == Seq::<Seq<char>>::empty(),
{
    let n = line.len() as int;
    let text = line.push('\r').push('\n') + rest;
    assert forall|j: int| 0 <= j < n + 1 implies text[j] != '\n' by {
        if j < n {
            assert(text[j] == line[j]);
            assert(line.contains(line[j]));
        }
    }
    lemma_first_index_is(text, '\n', n + 1);
    assert(text.take(n + 1) =~= line.push('\r'));
    assert(line.push('\r').drop_last() =~= line);
    assert(text.skip(n + 2) =~= rest);
    let open = line.push('\r');
    assert forall|j: int| 0 <= j < open.len() implies open[j] != '\n' by {
        if j < n {
            assert(line.contains(line[j]));
        }
    }
    lemma_first_index(open, '\n');
}

/// Beyond ASCII, white space is what Unicode says it is.
pub proof fn law_other_spaces(c: char)
    requires
        c as u32 >= 128,
    ensures
        is_space(c) <==> {
            let n = c as u32;
            n == 0x85 || n == 0xa0 || n == 0x1680 || 0x2000 <= n <= 0x200a || n == 0x2028 || n
                == 0x2029 || n == 0x202f || n == 0x205f || n == 0x3000
        },
{
}

} // verus!
