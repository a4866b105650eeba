//! What holds of the frame that cpio entries stand in.

use vstd::prelude::*;
use vstd::utf8::{
    encode_utf8, encode_utf8_decode_utf8, encode_utf8_valid_utf8, is_ascii_chars,
    is_ascii_chars_encode_utf8, valid_utf8,
};

use crate::cpio::{
    cpio_entry, is_directory, name_in, newc_entry, newc_field, newc_fields, newc_magic,
    octal_field, odc_entry, odc_header_at, odc_magic, odc_width, padding, CpioErrorView, Found,
    OdcField,
};
use crate::cpio_laws::{lemma_newc_header, newc_bytes, newc_header_bytes, zeros};
use crate::numbers::{is_digit, without_plus};
use crate::text::is_space;
use crate::text_laws::law_trimmed;
use crate::toc_read_laws::is_blank;
use crate::utf8::utf8_problem;

verus! {

/// The padding of a length fills it up to the next multiple of four, and no further.
pub proof fn law_padding(len: int)
    requires
        len >= 0,
    ensures
        0 <= padding(len) < 4,
        (len + padding(len)) % 4 == 0,
{
}

/// The file type of a mode stands above its twelve permission bits, in four bits, and is four for a
/// directory.
pub proof fn law_directories(mode: u32)
    ensures
        is_directory(mode) <==> (mode / 4096) % 16 == 4,
{
    assert((mode & 0o170000 == 0o040000) == ((mode / 4096) % 16 == 4)) by (bit_vector);
}

/// An entry is told by its first six bytes: `070701` for the portable variant with hexadecimal
/// fields and `070707` for the one with octal fields. Others are refused, with those bytes; fewer
/// are an archive that stops too early; and none are the end of the archive.
pub proof fn law_magic_numbers(s: Seq<u8>)
    ensures
        s.len() == 0 ==> cpio_entry(s) == Ok::<Found, CpioErrorView>(Found::End { rest: s }),
        0 < s.len() < 6 ==> cpio_entry(s) == Err::<Found, CpioErrorView>(
            CpioErrorView::TruncatedStream,
        ),
        s.len() >= 6 ==> {
            let common = s[0] == 0x30 && s[1] == 0x37 && s[2] == 0x30 && s[3] == 0x37 && s[4]
                == 0x30;
            &&& common && s[5] == 0x31 ==> cpio_entry(s) == newc_entry(s.skip(6))
            &&& common && s[5] == 0x37 ==> cpio_entry(s) == odc_entry(s.skip(6))
            &&& !common || (s[5] != 0x31 && s[5] != 0x37) ==> cpio_entry(s) == Err::<
                Found,
                CpioErrorView,
            >(CpioErrorView::UnsupportedVariant(s.take(6)))
        },
{
    if s.len() >= 6 {
        let start = s.take(6);
        let newc = newc_magic();
        let odc = odc_magic();
        if s[0] == 0x30 && s[1] == 0x37 && s[2] == 0x30 && s[3] == 0x37 && s[4] == 0x30 {
            if s[5] == 0x31 {
                assert(start =~= newc);
            }
            if s[5] == 0x37 {
                assert(start =~= odc);
                assert(start[5] != newc[5]);
            }
        }
        if start == newc {
            assert(s[0] == newc[0] && s[1] == newc[1] && s[2] == newc[2] && s[3] == newc[3] && s[4]
                == newc[4] && s[5] == newc[5]);
        }
        if start == odc {
            assert(s[0] == odc[0] && s[1] == odc[1] && s[2] == odc[2] && s[3] == odc[3] && s[4]
                == odc[4] && s[5] == odc[5]);
        }
    }
}

/// The fields of an octal header follow each other without gaps: seven of six bytes, one of
/// eleven, one of six and one of eleven.
pub proof fn law_octal_fields_follow_each_other(i: int)
    requires
        0 <= i < 10,
    ensures
        odc_header_at(0) == 0,
        odc_header_at(i + 1) - odc_header_at(i) == if i == 7 || i == 9 {
            11int
        } else {
            6
        },
{
}

/// A header that is cut short is found to be so, once the fields before the cut have been read.
proof fn lemma_cut_header(s: Seq<u8>, n: nat, cut: int)
    requires
        newc_fields(s, n) is Ok,
        0 <= cut < 8 * n,
        cut <= s.len(),
    ensures
        newc_fields(s.take(cut), n) == Err::<Seq<u32>, CpioErrorView>(
            CpioErrorView::TruncatedHeader,
        ),
    decreases n,
{
    let before = (n - 1) as nat;
    if cut < 8 * before {
        lemma_cut_header(s, before, cut);
    } else {
        lemma_cut_behind(s, before, cut);
    }
}

proof fn lemma_cut_behind(s: Seq<u8>, n: nat, cut: int)
    requires
        newc_fields(s, n) is Ok,
        8 * n <= cut <= s.len(),
    ensures
        newc_fields(s.take(cut), n) == newc_fields(s, n),
    decreases n,
{
    if n > 0 {
        lemma_cut_behind(s, (n - 1) as nat, cut);
        assert(s.take(cut).subrange(8 * (n - 1), 8 * n as int) =~= s.subrange(
            8 * (n - 1),
            8 * n as int,
        ));
    }
}

/// An entry that is cut short is an error, never a shorter file: wherever its bytes stop, it is
/// told in which part of it they do.
pub proof fn law_cut_entries_are_errors(fields: Seq<u32>, name: Seq<u8>, body: Seq<u8>, cut: int)
    requires
        fields.len() == 13,
        fields[11] == name.len(),
        fields[6] == body.len(),
        name_in(name) != "TRAILER!!!"@,
        0 < cut < newc_bytes(fields, name, body).len(),
    ensures
        ({
            let name_end = 110 + name.len();
            let body_start = name_end + padding(name_end as int);
            let body_end = body_start + body.len();
            cpio_entry(newc_bytes(fields, name, body).take(cut)) == Err::<Found, CpioErrorView>(
                if cut < 6 {
                    CpioErrorView::TruncatedStream
                } else if cut < 110 {
                    CpioErrorView::TruncatedHeader
                } else if cut < name_end {
                    CpioErrorView::TruncatedName
                } else if cut < body_start {
                    CpioErrorView::TruncatedPadding
                } else if cut < body_end {
                    CpioErrorView::TruncatedBody
                } else {
                    CpioErrorView::TruncatedPadding
                },
            )
        }),
{
    let whole = newc_bytes(fields, name, body);
    let part = whole.take(cut);
    if cut >= 6 {
        let pad = zeros(padding(110 + name.len() as int));
        let end = zeros(padding(body.len() as int));
        let header = newc_header_bytes(fields);
        let behind = name + pad + body + end;
        lemma_newc_header(fields, behind);
        let s = header + behind;
        assert(whole.skip(6) =~= s);
        assert(part.take(6) =~= newc_magic());
        assert(part.skip(6) =~= s.take(cut - 6));
        if cut < 110 {
            lemma_cut_header(s, 13, cut - 6);
        } else {
            lemma_cut_behind(s, 13, cut - 6);
            if cut >= 110 + name.len() {
                assert(s.take(cut - 6).subrange(104, 104 + name.len() as int) =~= name);
            }
        }
    }
}

// ---------------------------------------------------------------------------
// Fields that hold no number
// ---------------------------------------------------------------------------

/// `c` is a hexadecimal digit.
pub open spec fn is_hexadecimal(c: char) -> bool {
    '0' <= c <= '9' || 'a' <= c <= 'f' || 'A' <= c <= 'F'
}

/// A field of a header that holds anything but hexadecimal digits is an error, never a number; and
/// so is one that is not text.
pub proof fn law_fields_are_hexadecimal(text: Seq<char>, bytes: Seq<u8>, i: int)
    requires
        0 < i < text.len(),
        !is_hexadecimal(text[i]),
        !valid_utf8(bytes),
    ensures
        newc_field(encode_utf8(text)) == Err::<u32, CpioErrorView>(CpioErrorView::MalformedHeader),
        newc_field(bytes) == Err::<u32, CpioErrorView>(
            CpioErrorView::HeaderNotText(utf8_problem(bytes)),
        ),
{
    encode_utf8_decode_utf8(text);
    encode_utf8_valid_utf8(text);
    let digits = without_plus(text);
    if text[0] == '+' {
        assert(digits[i - 1] == text[i]);
        assert(!is_digit(digits[i - 1], 16));
    } else {
        assert(!is_digit(digits[i], 16));
    }
}

/// A field of an octal header that holds anything but octal digits, within the white space around
/// them, is an error that tells the field and what stands in it.
pub proof fn law_fields_are_octal(
    a: Seq<char>,
    inner: Seq<char>,
    b: Seq<char>,
    field: OdcField,
    rest: Seq<u8>,
    i: int,
)
    requires
        is_blank(a),
        is_blank(b),
        is_ascii_chars(a + inner + b),
        (a + inner + b).len() == odc_width(field),
        0 < i < inner.len(),
        !('0' <= inner[i] <= '7'),
        !is_space(inner[0]),
        !is_space(inner.last()),
    ensures
        octal_field(encode_utf8(a + inner + b) + rest, field) == Err::<u64, CpioErrorView>(
            CpioErrorView::MalformedField(field, a + inner + b),
        ),
{
    let text = a + inner + b;
    let bytes = encode_utf8(text);
    is_ascii_chars_encode_utf8(text);
    encode_utf8_decode_utf8(text);
    encode_utf8_valid_utf8(text);
    assert((bytes + rest).take(odc_width(field)) =~= bytes);
    law_trimmed(a, inner, b);
    let digits = without_plus(inner);
    if inner[0] == '+' {
        assert(digits[i - 1] == inner[i]);
        assert(!is_digit(digits[i - 1], 8));
    } else {
        assert(!is_digit(digits[i], 8));
    }
}

/// An octal header that is cut short is an error that tells the field that is cut.
pub proof fn law_cut_fields_are_errors(rest: Seq<u8>, field: OdcField)
    requires
        rest.len() < odc_width(field),
    ensures
        octal_field(rest, field) == Err::<u64, CpioErrorView>(CpioErrorView::TruncatedField(field)),
        odc_width(field) == 6 || odc_width(field) == 11,
{
}

} // verus!
