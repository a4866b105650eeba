//! Laws of the fields of `odc` headers.

use vstd::prelude::*;
use vstd::utf8::{decode_utf8, valid_utf8};

use crate::cpio::{
    octal_field, odc_entry, odc_error, odc_field, odc_fields, odc_start, odc_width, CpioErrorView,
    OdcField,
};
use crate::cpio_laws::lemma_odc_no_error;
use crate::numbers::{digits_value, is_digit, number_in, run_of, without_plus};
use crate::text::{is_space, trimmed, trimmed_end, trimmed_start};

verus! {

// ---------------------------------------------------------------------------
// Runs of one byte
// ---------------------------------------------------------------------------

/// `c`, `n` times.
spec fn byte_run(c: u8, n: nat) -> Seq<u8> {
    Seq::new(n, |i: int| c)
}

proof fn lemma_ascii_first(c: u8, rest: Seq<u8>)
    requires
        c <= 0x7f,
    ensures
        valid_utf8(seq![c] + rest) == valid_utf8(rest),
        valid_utf8(rest) ==> decode_utf8(seq![c] + rest) == seq![c as char] + decode_utf8(rest),
{
    let bytes = seq![c] + rest;
    assert(c & 0x7f == c) by (bit_vector)
        requires
            c <= 0x7f,
    ;
    assert(bytes.subrange(1, bytes.len() as int) =~= rest);
    reveal_with_fuel(valid_utf8, 2);
}

proof fn lemma_ascii_run(c: u8, n: nat, rest: Seq<u8>)
    requires
        c <= 0x7f,
    ensures
        valid_utf8(byte_run(c, n) + rest) == valid_utf8(rest),
        valid_utf8(rest) ==> decode_utf8(byte_run(c, n) + rest) == run_of(c as char, n as int)
            + decode_utf8(rest),
    decreases n,
{
    if n == 0 {
        assert(byte_run(c, n) + rest =~= rest);
        assert(run_of(c as char, 0) + decode_utf8(rest) =~= decode_utf8(rest));
    } else {
        let fewer = (n - 1) as nat;
        lemma_ascii_run(c, fewer, rest);
        lemma_ascii_first(c, byte_run(c, fewer) + rest);
        assert(byte_run(c, n) + rest =~= seq![c] + (byte_run(c, fewer) + rest));
        assert(run_of(c as char, n as int) + decode_utf8(rest) =~= seq![c as char] + (run_of(
            c as char,
            fewer as int,
        ) + decode_utf8(rest)));
    }
}

proof fn lemma_trim_spaces(n: nat, text: Seq<char>)
    ensures
        trimmed_start(run_of(' ', n as int) + text) == trimmed_start(text),
    decreases n,
{
    let all = run_of(' ', n as int) + text;
    if n == 0 {
        assert(all =~= text);
    } else {
        lemma_trim_spaces((n - 1) as nat, text);
        assert(all.drop_first() =~= run_of(' ', n - 1) + text);
    }
}

proof fn lemma_trim_zeros(n: nat, text: Seq<char>)
    requires
        n > 0,
    ensures
        trimmed(run_of('0', n as int) + text) == run_of('0', n as int) + trimmed_end(text),
{
    assert((run_of('0', n as int) + text)[0] == '0');
    lemma_trim_end_zeros(n, text);
}

proof fn lemma_trim_end_zeros(n: nat, text: Seq<char>)
    requires
        n > 0,
    ensures
        trimmed_end(run_of('0', n as int) + text) == run_of('0', n as int) + trimmed_end(text),
    decreases text.len(),
{
    let zeros = run_of('0', n as int);
    if text.len() == 0 {
        assert(zeros + text =~= zeros);
        assert(zeros.last() == '0');
    } else if is_space(text.last()) {
        assert((zeros + text).drop_last() =~= zeros + text.drop_last());
        lemma_trim_end_zeros(n, text.drop_last());
    } else {
        assert((zeros + text).last() == text.last());
    }
}

proof fn lemma_leading_zeros(n: nat, text: Seq<char>)
    ensures
        digits_value(run_of('0', n as int) + text, 8) == digits_value(text, 8),
    decreases n + text.len(),
{
    let all = run_of('0', n as int) + text;
    if text.len() > 0 {
        assert(all.drop_last() =~= run_of('0', n as int) + text.drop_last());
        lemma_leading_zeros(n, text.drop_last());
    } else if n > 0 {
        assert(all.drop_last() =~= run_of('0', n - 1) + text);
        lemma_leading_zeros((n - 1) as nat, text);
    }
}

// ---------------------------------------------------------------------------
// Fields
// ---------------------------------------------------------------------------

/// `text`, behind a run of zeros or of spaces, is read in two ways: it starts with white space
/// or a plus sign, and is blank or writes a number.
pub open spec fn reads_two_ways(text: Seq<char>) -> bool {
    &&& text.len() > 0
    &&& is_space(text[0]) || text[0] == '+'
    &&& trimmed(text).len() == 0 || number_in(trimmed(text), 8, u64::MAX as nat) is Some
}

/// The field `b` is the field `a`, or `a` with spaces in place of the first `n` zeros that it
/// starts with. Something other than them is left in the field.
pub open spec fn is_spaced(a: Seq<u8>, b: Seq<u8>, n: int) -> bool {
    &&& a.len() == b.len()
    &&& 0 <= n < a.len()
    &&& a.skip(n) == b.skip(n)
    &&& forall|i: int| 0 <= i < n ==> #[trigger] a[i] == 0x30 && b[i] == 0x20
    &&& n > 0 && valid_utf8(a.skip(n)) ==> !reads_two_ways(decode_utf8(a.skip(n)))
}

/// Two readings come to the same: to one value, or each to an error.
pub open spec fn agree<T>(a: Result<T, CpioErrorView>, b: Result<T, CpioErrorView>) -> bool {
    match (a, b) {
        (Ok(x), Ok(y)) => x == y,
        (Err(_), Err(_)) => true,
        _ => false,
    }
}

proof fn lemma_no_number(text: Seq<char>, at: int)
    requires
        0 <= at < without_plus(text).len(),
        !is_digit(without_plus(text)[at], 8),
    ensures
        number_in(text, 8, u64::MAX as nat) is None,
{
}

proof fn lemma_numbers_agree(n: nat, text: Seq<char>)
    requires
        n > 0,
        text.len() > 0,
        !reads_two_ways(text),
    ensures
        number_in(run_of('0', n as int) + trimmed_end(text), 8, u64::MAX as nat) == number_in(
            trimmed(text),
            8,
            u64::MAX as nat,
        ),
{
    let max = u64::MAX as nat;
    let zeros = run_of('0', n as int);
    let tail = trimmed_end(text);
    let all = zeros + tail;
    assert(all[0] == '0');
    assert(without_plus(all) == all);
    if is_space(text[0]) || text[0] == '+' {
        lemma_trim_end_keeps_first(text);
        if is_space(text[0]) {
            if tail.len() == 0 {
                lemma_blank(text);
            }
        }
        assert(all[n as int] == tail[0]);
        lemma_no_number(all, n as int);
    } else {
        assert(trimmed_start(text) == text);
        lemma_trim_end_keeps_first(text);
        lemma_leading_zeros(n, tail);
        assert(without_plus(tail) == tail);
        if exists|i: int| 0 <= i < tail.len() && !is_digit(#[trigger] tail[i], 8) {
            let i = choose|i: int| 0 <= i < tail.len() && !is_digit(#[trigger] tail[i], 8);
            assert(all[n + i] == tail[i]);
            lemma_no_number(all, n + i);
            lemma_no_number(tail, i);
        } else {
            assert forall|i: int| 0 <= i < all.len() implies is_digit(#[trigger] all[i], 8) by {
                if i >= n {
                    assert(all[i] == tail[i - n]);
                }
            }
        }
    }
}

/// What is left of a text at its end starts as the text does.
proof fn lemma_trim_end_keeps_first(text: Seq<char>)
    requires
        text.len() > 0,
    ensures
        trimmed_end(text).len() > 0 ==> trimmed_end(text)[0] == text[0],
        !is_space(text[0]) ==> trimmed_end(text).len() > 0,
        trimmed_end(text).len() <= text.len(),
    decreases text.len(),
{
    if is_space(text.last()) {
        if text.len() > 1 {
            lemma_trim_end_keeps_first(text.drop_last());
        } else {
            assert(trimmed_end(text.drop_last()) == text.drop_last());
        }
    }
}

/// A text of white space alone is blank from either end.
proof fn lemma_blank(text: Seq<char>)
    requires
        trimmed_end(text).len() == 0,
    ensures
        trimmed(text).len() == 0,
{
    lemma_all_space(text);
    lemma_all_trimmed(text);
}

proof fn lemma_all_space(text: Seq<char>)
    requires
        trimmed_end(text).len() == 0,
    ensures
        forall|i: int| 0 <= i < text.len() ==> is_space(#[trigger] text[i]),
    decreases text.len(),
{
    if text.len() > 0 {
        let shorter = text.drop_last();
        lemma_all_space(shorter);
        assert forall|i: int| 0 <= i < text.len() implies is_space(#[trigger] text[i]) by {
            if i < shorter.len() {
                assert(shorter[i] == text[i]);
            }
        }
    }
}

proof fn lemma_all_trimmed(text: Seq<char>)
    requires
        forall|i: int| 0 <= i < text.len() ==> is_space(#[trigger] text[i]),
    ensures
        trimmed_start(text).len() == 0,
    decreases text.len(),
{
    if text.len() > 0 {
        let rest = text.drop_first();
        assert forall|i: int| 0 <= i < rest.len() implies is_space(#[trigger] rest[i]) by {
            assert(rest[i] == text[i + 1]);
        }
        assert(is_space(text[0]));
        lemma_all_trimmed(rest);
    }
}

/// A field reads the same with spaces in place of leading zeros.
pub proof fn law_leading_zeros_may_be_spaces(a: Seq<u8>, b: Seq<u8>, n: int, field: OdcField)
    requires
        is_spaced(a, b, n),
        a.len() == odc_width(field),
    ensures
        agree(octal_field(a, field), octal_field(b, field)),
{
    let rest = a.skip(n);
    assert(a.take(odc_width(field)) =~= a);
    assert(b.take(odc_width(field)) =~= b);
    if n == 0 {
        assert(a.skip(0) =~= a);
        assert(b.skip(0) =~= b);
    } else {
        assert(a =~= byte_run(0x30, n as nat) + rest) by {
            assert forall|i: int| 0 <= i < a.len() implies a[i] == (byte_run(0x30, n as nat)
                + rest)[i] by {}
        }
        assert(b =~= byte_run(0x20, n as nat) + rest) by {
            assert forall|i: int| 0 <= i < b.len() implies b[i] == (byte_run(0x20, n as nat)
                + rest)[i] by {
                if i < n {
                    assert(a[i] == 0x30);
                } else {
                    assert(b.skip(n)[i - n] == b[i]);
                }
            }
        }
        lemma_ascii_run(0x30, n as nat, rest);
        lemma_ascii_run(0x20, n as nat, rest);
        if valid_utf8(rest) {
            let text = decode_utf8(rest);
            assert(text.len() > 0);
            lemma_trim_zeros(n as nat, text);
            lemma_trim_spaces(n as nat, text);
            lemma_numbers_agree(n as nat, text);
        }
    }
}

// ---------------------------------------------------------------------------
// Entries
// ---------------------------------------------------------------------------

/// The bytes of field number `i` in the header with which `s` begins.
pub open spec fn field_in(s: Seq<u8>, i: int) -> Seq<u8> {
    let field = odc_fields()[i];
    s.subrange(odc_start(field), odc_start(field) + odc_width(field))
}

/// `t` is `s` with spaces in place of leading zeros, in field number `i` as many as `n[i]`.
pub open spec fn is_spaced_header(s: Seq<u8>, t: Seq<u8>, n: Seq<int>) -> bool {
    &&& s.len() == t.len()
    &&& s.len() >= 70 ==> {
        &&& s.skip(70) == t.skip(70)
        &&& n.len() == 10
        &&& forall|i: int|
            0 <= i < 10 ==> is_spaced(field_in(s, i), field_in(t, i), #[trigger] n[i])
    }
}

proof fn lemma_odc_error(s: Seq<u8>, fields: Seq<OdcField>, i: int)
    requires
        0 <= i < fields.len(),
        odc_field(s, fields[i]) is Err,
    ensures
        odc_error(s, fields) is Some,
    decreases fields.len(),
{
    if i > 0 {
        assert(fields.drop_first()[i - 1] == fields[i]);
        lemma_odc_error(s, fields.drop_first(), i - 1);
    }
}

proof fn lemma_odc_field_in(s: Seq<u8>, i: int)
    requires
        s.len() >= 70,
        0 <= i < 10,
    ensures
        odc_field(s, odc_fields()[i]) == octal_field(field_in(s, i), odc_fields()[i]),
        field_in(s, i).len() == odc_width(odc_fields()[i]),
{
    let field = odc_fields()[i];
    assert(s.skip(odc_start(field)).take(odc_width(field)) =~= field_in(s, i));
    assert(field_in(s, i).take(odc_width(field)) =~= field_in(s, i));
}

/// An entry reads the same with spaces in place of the leading zeros of its fields: the same
/// entry and body with the same bytes left, or the end of the archive with the same bytes left,
/// or an error both times.
pub proof fn law_headers_may_be_filled_with_spaces(s: Seq<u8>, t: Seq<u8>, n: Seq<int>)
    requires
        is_spaced_header(s, t, n),
    ensures
        agree(odc_entry(s), odc_entry(t)),
{
    let fields = odc_fields();
    if s.len() < 70 {
        assert(fields[9] == OdcField::FileSize);
        lemma_odc_error(s, fields, 9);
        lemma_odc_error(t, fields, 9);
    } else {
        assert forall|i: int| 0 <= i < 10 implies agree(
            odc_field(s, #[trigger] fields[i]),
            odc_field(t, fields[i]),
        ) by {
            lemma_odc_field_in(s, i);
            lemma_odc_field_in(t, i);
            assert(is_spaced(field_in(s, i), field_in(t, i), n[i]));
            law_leading_zeros_may_be_spaces(field_in(s, i), field_in(t, i), n[i], fields[i]);
        }
        if exists|i: int| 0 <= i < 10 && odc_field(s, #[trigger] fields[i]) is Err {
            let i = choose|i: int| 0 <= i < 10 && odc_field(s, #[trigger] fields[i]) is Err;
            assert(agree(odc_field(s, fields[i]), odc_field(t, fields[i])));
            lemma_odc_error(s, fields, i);
            lemma_odc_error(t, fields, i);
        } else {
            assert forall|i: int| 0 <= i < 10 implies odc_field(t, #[trigger] fields[i]) is Ok by {
                assert(agree(odc_field(s, fields[i]), odc_field(t, fields[i])));
            }
            lemma_odc_no_error(s, fields);
            lemma_odc_no_error(t, fields);
            assert(fields[2] == OdcField::Mode);
            assert(fields[8] == OdcField::NameSize);
            assert(fields[9] == OdcField::FileSize);
            assert(agree(odc_field(s, fields[2]), odc_field(t, fields[2])));
            assert(agree(odc_field(s, fields[8]), odc_field(t, fields[8])));
            assert(agree(odc_field(s, fields[9]), odc_field(t, fields[9])));
            let name_end = 70 + odc_field(s, OdcField::NameSize)->Ok_0;
            let body_end = name_end + odc_field(s, OdcField::FileSize)->Ok_0;
            assert forall|from: int, to: int| 70 <= from <= to <= s.len() implies
                #[trigger] s.subrange(from, to) == t.subrange(from, to) by {
                assert(s.subrange(from, to) =~= s.skip(70).subrange(from - 70, to - 70));
                assert(t.subrange(from, to) =~= t.skip(70).subrange(from - 70, to - 70));
            }
            assert forall|from: int| 70 <= from <= s.len() implies #[trigger] s.skip(from)
                == t.skip(from) by {
                assert(s.skip(from) =~= s.skip(70).skip(from - 70));
                assert(t.skip(from) =~= t.skip(70).skip(from - 70));
            }
            if s.len() >= name_end {
                assert(s.subrange(70, name_end) == t.subrange(70, name_end));
                assert(s.skip(name_end) == t.skip(name_end));
                if s.len() >= body_end {
                    assert(s.subrange(name_end, body_end) == t.subrange(name_end, body_end));
                    assert(s.skip(body_end) == t.skip(body_end));
                }
            }
        }
    }
}

} // verus!
