//! Laws of cpio archives: what is written is read back.

use vstd::arithmetic::power::{lemma_pow1, lemma_pow0, lemma_pow_adds, lemma_pow_positive, pow};
use vstd::prelude::*;
use vstd::utf8::{
    decode_utf8, encode_utf8, encode_utf8_decode_utf8, encode_utf8_valid_utf8, is_ascii_chars,
    is_ascii_chars_encode_utf8, valid_utf8,
};

use crate::cpio::{
    cpio_entry, cpio_files, is_directory, name_in, newc_field, newc_fields, newc_magic, odc_error,
    odc_field, odc_fields, odc_header_at, odc_magic, odc_start, odc_width, padding, CpioEntryView,
    CpioErrorView, Found, OdcField, Parsed,
};
use crate::numbers::{digit_value, digits_value, is_digit, number_in};
use crate::text::{is_space, trimmed, without_trailing};
use crate::text_laws::law_without_trailing;

verus! {

// ---------------------------------------------------------------------------
// Numbers in fields
// ---------------------------------------------------------------------------

/// The digit `d`, in a base up to sixteen.
pub open spec fn digit_text(d: nat) -> char {
    if d < 10 {
        ('0' as u32 + d) as char
    } else {
        ('a' as u32 + d - 10) as char
    }
}

/// `v` in base `radix`, with `width` digits.
pub open spec fn field_text(v: nat, radix: nat, width: nat) -> Seq<char>
    decreases width,
{
    if width == 0 {
        Seq::empty()
    } else {
        field_text(v / radix, radix, (width - 1) as nat).push(digit_text(v % radix))
    }
}

proof fn lemma_field_text(v: nat, radix: nat, width: nat)
    requires
        2 <= radix <= 16,
        v < pow(radix as int, width),
    ensures
        field_text(v, radix, width).len() == width,
        digits_value(field_text(v, radix, width), radix) == v,
        forall|i: int|
            0 <= i < width ==> is_digit(#[trigger] field_text(v, radix, width)[i], radix),
        forall|i: int| 0 <= i < width ==> #[trigger] field_text(v, radix, width)[i] != '+',
        forall|i: int| 0 <= i < width ==> !is_space(#[trigger] field_text(v, radix, width)[i]),
        is_ascii_chars(field_text(v, radix, width)),
    decreases width,
{
    if width == 0 {
        lemma_pow0(radix as int);
    } else {
        let w = (width - 1) as nat;
        let q = v / radix;
        let d = v % radix;
        lemma_pow_adds(radix as int, w, 1);
        lemma_pow1(radix as int);
        lemma_pow_positive(radix as int, w);
        let p = pow(radix as int, w);
        assert(q < p) by (nonlinear_arith)
            requires
                q == v / radix,
                v < p * radix,
                radix >= 2,
                p > 0,
        ;
        assert(q * radix + d == v && 0 <= d < radix) by (nonlinear_arith)
            requires
                q == v / radix,
                d == v % radix,
                radix >= 2,
        ;
        lemma_field_text(q, radix, w);
        let t = field_text(v, radix, width);
        let head = field_text(q, radix, w);
        assert(t.drop_last() =~= head);
        assert(t == head.push(digit_text(d)));
        assert(digit_value(digit_text(d)) == Some(d));
        assert forall|i: int| 0 <= i < width implies is_digit(#[trigger] t[i], radix) && t[i]
            != '+' && !is_space(t[i]) && 0 <= t[i] as u32 <= 127 by {
            if i < w {
                assert(t[i] == head[i]);
            } else {
                assert(t[i] == digit_text(d));
            }
        }
    }
}

/// The bytes of a number in a field.
pub open spec fn field_bytes(v: nat, radix: nat, width: nat) -> Seq<u8> {
    encode_utf8(field_text(v, radix, width))
}

proof fn lemma_field_bytes(v: nat, radix: nat, width: nat)
    requires
        2 <= radix <= 16,
        v < pow(radix as int, width),
    ensures
        field_bytes(v, radix, width).len() == width,
        valid_utf8(field_bytes(v, radix, width)),
        decode_utf8(field_bytes(v, radix, width)) == field_text(v, radix, width),
{
    let t = field_text(v, radix, width);
    lemma_field_text(v, radix, width);
    is_ascii_chars_encode_utf8(t);
    encode_utf8_valid_utf8(t);
    encode_utf8_decode_utf8(t);
}

proof fn lemma_field_number(v: nat, radix: nat, width: nat, max: nat)
    requires
        2 <= radix <= 16,
        width > 0,
        v < pow(radix as int, width),
        v <= max,
    ensures
        number_in(field_text(v, radix, width), radix, max) == Some(v),
        trimmed(field_text(v, radix, width)) == field_text(v, radix, width),
{
    let t = field_text(v, radix, width);
    lemma_field_text(v, radix, width);
    assert(t[0] != '+');
    assert(!is_space(t[0]));
    assert(!is_space(t[width - 1]));
}

// ---------------------------------------------------------------------------
// newc
// ---------------------------------------------------------------------------

/// The bytes of a `newc` header with the fields `fields`, without the magic number.
pub open spec fn newc_header_bytes(fields: Seq<u32>) -> Seq<u8>
    decreases fields.len(),
{
    if fields.len() == 0 {
        Seq::empty()
    } else {
        newc_header_bytes(fields.drop_last()) + field_bytes(fields.last() as nat, 16, 8)
    }
}

/// `n` zeros.
pub open spec fn zeros(n: int) -> Seq<u8> {
    Seq::new(n as nat, |i: int| 0u8)
}

/// The bytes of a `newc` entry.
pub open spec fn newc_bytes(fields: Seq<u32>, name: Seq<u8>, body: Seq<u8>) -> Seq<u8> {
    newc_magic() + newc_header_bytes(fields) + name + zeros(padding(110 + name.len() as int)) + body
        + zeros(padding(body.len() as int))
}

proof fn lemma_pow_values()
    ensures
        pow(16, 8) == 0x1_0000_0000,
        pow(8, 6) == 0o1_000_000,
        pow(8, 11) == 0o100_000_000_000,
{
    reveal(pow);
    reveal_with_fuel(pow, 12);
}

pub proof fn lemma_newc_header(fields: Seq<u32>, after: Seq<u8>)
    ensures
        newc_header_bytes(fields).len() == 8 * fields.len(),
        newc_fields(newc_header_bytes(fields) + after, fields.len()) == Ok::<
            Seq<u32>,
            CpioErrorView,
        >(fields),
    decreases fields.len(),
{
    if fields.len() == 0 {
        assert(fields =~= Seq::empty());
    } else {
        let head = fields.drop_last();
        let last = fields.last();
        let bytes = field_bytes(last as nat, 16, 8);
        lemma_pow_values();
        lemma_field_bytes(last as nat, 16, 8);
        lemma_field_number(last as nat, 16, 8, u32::MAX as nat);
        lemma_newc_header(head, bytes + after);
        let s = newc_header_bytes(fields) + after;
        assert(s =~= newc_header_bytes(head) + (bytes + after));
        let n = fields.len();
        assert(s.subrange(8 * (n - 1), 8 * n as int) =~= bytes);
        assert(newc_field(bytes) == Ok::<u32, CpioErrorView>(last));
        assert(head.push(last) =~= fields);
    }
}

/// A `newc` entry is read back: its name, mode, size and body come out as they were written,
/// and the bytes after it are those that are left.
pub proof fn law_newc_read_back(
    fields: Seq<u32>,
    name: Seq<u8>,
    body: Seq<u8>,
    after: Seq<u8>,
)
    requires
        fields.len() == 13,
        fields[11] == name.len(),
        fields[6] == body.len(),
        name_in(name) != "TRAILER!!!"@,
    ensures
        cpio_entry(newc_bytes(fields, name, body) + after) == Ok::<Found, CpioErrorView>(
            Found::Entry(
                Parsed {
                    entry: CpioEntryView {
                        name: name_in(name),
                        mode: fields[1],
                        file_size: body.len() as u64,
                    },
                    body,
                    rest: after,
                },
            ),
        ),
{
    let magic = newc_magic();
    let header = newc_header_bytes(fields);
    let pad1 = zeros(padding(110 + name.len() as int));
    let pad2 = zeros(padding(body.len() as int));
    let all = newc_bytes(fields, name, body) + after;
    lemma_newc_header(fields, name + pad1 + body + pad2 + after);
    let s = header + (name + pad1 + body + pad2 + after);
    assert(all.take(6) =~= magic);
    assert(all.skip(6) =~= s);
    let name_end = 104 + name.len() as int;
    let body_start = name_end + padding(110 + name.len() as int);
    let body_end = body_start + body.len();
    assert(s.subrange(104, name_end) =~= name);
    assert(s.subrange(body_start, body_end) =~= body);
    assert(s.skip(body_end + padding(body.len() as int)) =~= after);
}

/// A `newc` entry called `TRAILER!!!` ends the archive, and the bytes after it are those that are
/// left.
pub proof fn law_newc_trailer(fields: Seq<u32>, name: Seq<u8>, after: Seq<u8>)
    requires
        fields.len() == 13,
        fields[11] == name.len(),
        name_in(name) == "TRAILER!!!"@,
    ensures
        cpio_entry(newc_bytes(fields, name, Seq::empty()) + after) == Ok::<
            Found,
            CpioErrorView,
        >(Found::End { rest: after }),
{
    let header = newc_header_bytes(fields);
    let pad = zeros(padding(110 + name.len() as int));
    let none = Seq::<u8>::empty();
    let all = newc_bytes(fields, name, none) + after;
    lemma_newc_header(fields, name + pad + after);
    let s = header + (name + pad + after);
    assert(all.take(6) =~= newc_magic());
    assert(all.skip(6) =~= s);
    let name_end = 104 + name.len() as int;
    assert(s.subrange(104, name_end) =~= name);
    assert(s.skip(name_end + padding(110 + name.len() as int)) =~= after);
}

// ---------------------------------------------------------------------------
// odc
// ---------------------------------------------------------------------------

/// The bytes of the first `n` fields of an `odc` header with the values `values`.
pub open spec fn odc_header_bytes(values: Seq<u64>, n: int) -> Seq<u8>
    decreases n,
{
    if n <= 0 {
        Seq::empty()
    } else {
        odc_header_bytes(values, n - 1) + field_bytes(
            values[n - 1] as nat,
            8,
            odc_width(odc_fields()[n - 1]) as nat,
        )
    }
}

/// Every value has room in its field.
pub open spec fn odc_fits(values: Seq<u64>) -> bool {
    &&& values.len() == 10
    &&& forall|i: int|
        0 <= i < 10 ==> (#[trigger] values[i]) < pow(8, odc_width(odc_fields()[i]) as nat)
}

/// The bytes of an `odc` entry.
pub open spec fn odc_bytes(values: Seq<u64>, name: Seq<u8>, body: Seq<u8>) -> Seq<u8> {
    odc_magic() + odc_header_bytes(values, 10) + name + body
}

proof fn lemma_odc_header_len(values: Seq<u64>, n: int)
    requires
        odc_fits(values),
        0 <= n <= 10,
    ensures
        odc_header_bytes(values, n).len() == odc_header_at(n),
    decreases n,
{
    if n > 0 {
        lemma_odc_header_len(values, n - 1);
        assert(values[n - 1] < pow(8, odc_width(odc_fields()[n - 1]) as nat));
        lemma_field_bytes(values[n - 1] as nat, 8, odc_width(odc_fields()[n - 1]) as nat);
    }
}

proof fn lemma_odc_header_prefix(values: Seq<u64>, m: int, n: int)
    requires
        odc_fits(values),
        0 <= m <= n <= 10,
    ensures
        odc_header_bytes(values, n).take(odc_header_at(m)) == odc_header_bytes(values, m),
        odc_header_at(m) <= odc_header_at(n),
    decreases n,
{
    lemma_odc_header_len(values, m);
    lemma_odc_header_len(values, n);
    if m == n {
        assert(odc_header_bytes(values, n).take(odc_header_at(m)) =~= odc_header_bytes(values, m));
    } else {
        lemma_odc_header_prefix(values, m, n - 1);
        lemma_odc_header_len(values, n - 1);
        assert(odc_header_bytes(values, n).take(odc_header_at(m)) =~= odc_header_bytes(
            values,
            n - 1,
        ).take(odc_header_at(m)));
    }
}

proof fn lemma_odc_field(values: Seq<u64>, after: Seq<u8>, i: int)
    requires
        odc_fits(values),
        0 <= i < 10,
    ensures
        odc_field(odc_header_bytes(values, 10) + after, odc_fields()[i]) == Ok::<
            u64,
            CpioErrorView,
        >(values[i]),
{
    let field = odc_fields()[i];
    let width = odc_width(field);
    let s = odc_header_bytes(values, 10) + after;
    let bytes = field_bytes(values[i] as nat, 8, width as nat);
    let upto = odc_header_bytes(values, i + 1);
    assert(values[i] < pow(8, width as nat));
    lemma_field_bytes(values[i] as nat, 8, width as nat);
    lemma_field_number(values[i] as nat, 8, width as nat, u64::MAX as nat);
    lemma_odc_header_len(values, i);
    lemma_odc_header_len(values, i + 1);
    lemma_odc_header_len(values, 10);
    lemma_odc_header_prefix(values, i + 1, 10);
    assert(odc_header_at(i) == odc_start(field));
    assert(odc_header_at(i + 1) == odc_start(field) + width);
    assert(s.skip(odc_start(field)).take(width) =~= bytes) by {
        assert forall|k: int| 0 <= k < width implies s[odc_start(field) + k] == bytes[k] by {
            let at = odc_start(field) + k;
            assert(s[at] == odc_header_bytes(values, 10)[at]);
            assert(odc_header_bytes(values, 10).take(odc_header_at(i + 1))[at] == upto[at]);
            assert(upto[at] == bytes[k]);
        }
    }
}

/// A header in which every field is a number has no error.
pub proof fn lemma_odc_no_error(s: Seq<u8>, fields: Seq<OdcField>)
    requires
        forall|i: int| 0 <= i < fields.len() ==> odc_field(s, #[trigger] fields[i]) is Ok,
    ensures
        odc_error(s, fields) is None,
    decreases fields.len(),
{
    if fields.len() > 0 {
        assert(odc_field(s, fields[0]) is Ok);
        let t = fields.drop_first();
        assert forall|i: int| 0 <= i < t.len() implies odc_field(s, #[trigger] t[i]) is Ok by {
            assert(t[i] == fields[i + 1]);
        }
        lemma_odc_no_error(s, t);
    }
}

/// An `odc` entry is read back: its name, mode, size and body come out as they were written,
/// and the bytes after it are those that are left.
pub proof fn law_odc_read_back(values: Seq<u64>, name: Seq<u8>, body: Seq<u8>, after: Seq<u8>)
    requires
        odc_fits(values),
        values[8] == name.len(),
        values[9] == body.len(),
        name_in(name) != "TRAILER!!!"@,
    ensures
        cpio_entry(odc_bytes(values, name, body) + after) == Ok::<Found, CpioErrorView>(
            Found::Entry(
                Parsed {
                    entry: CpioEntryView {
                        name: name_in(name),
                        mode: values[2] as u32,
                        file_size: body.len() as u64,
                    },
                    body,
                    rest: after,
                },
            ),
        ),
{
    let magic = odc_magic();
    let header = odc_header_bytes(values, 10);
    let tail = name + body + after;
    let all = odc_bytes(values, name, body) + after;
    let s = header + tail;
    lemma_odc_header_len(values, 10);
    assert(all.take(6) =~= magic);
    assert(magic[5] != newc_magic()[5]);
    assert(all.skip(6) =~= s);
    assert forall|i: int| 0 <= i < 10 implies odc_field(s, #[trigger] odc_fields()[i]) == Ok::<
        u64,
        CpioErrorView,
    >(values[i]) by {
        lemma_odc_field(values, tail, i);
    }
    lemma_odc_no_error(s, odc_fields());
    assert(odc_fields()[2] == OdcField::Mode);
    assert(odc_fields()[8] == OdcField::NameSize);
    assert(odc_fields()[9] == OdcField::FileSize);
    let name_end = 70 + name.len() as int;
    let body_end = name_end + body.len();
    assert(s.subrange(70, name_end) =~= name);
    assert(s.subrange(name_end, body_end) =~= body);
    assert(s.skip(body_end) =~= after);
}

/// An `odc` entry called `TRAILER!!!` ends the archive, and the bytes after it are those that are
/// left.
pub proof fn law_odc_trailer(values: Seq<u64>, name: Seq<u8>, after: Seq<u8>)
    requires
        odc_fits(values),
        values[8] == name.len(),
        name_in(name) == "TRAILER!!!"@,
    ensures
        cpio_entry(odc_bytes(values, name, Seq::empty()) + after) == Ok::<
            Found,
            CpioErrorView,
        >(Found::End { rest: after }),
{
    let header = odc_header_bytes(values, 10);
    let tail = name + after;
    let all = odc_bytes(values, name, Seq::empty()) + after;
    let s = header + tail;
    lemma_odc_header_len(values, 10);
    assert(all.take(6) =~= odc_magic());
    assert(odc_magic()[5] != newc_magic()[5]);
    assert(all.skip(6) =~= s);
    assert forall|i: int| 0 <= i < 10 implies odc_field(s, #[trigger] odc_fields()[i]) == Ok::<
        u64,
        CpioErrorView,
    >(values[i]) by {
        lemma_odc_field(values, tail, i);
    }
    lemma_odc_no_error(s, odc_fields());
    assert(odc_fields()[8] == OdcField::NameSize);
    assert(s.subrange(70, 70 + name.len() as int) =~= name);
    assert(s.skip(70 + name.len() as int) =~= after);
}

// ---------------------------------------------------------------------------
// Archives
// ---------------------------------------------------------------------------

/// A name that is text without a NUL at its end is read back from its UTF-8 bytes and the NUL
/// that closes them.
pub proof fn law_name_read_back(name: Seq<char>)
    requires
        name.len() > 0 ==> name.last() != '\0',
    ensures
        name_in(encode_utf8(name.push('\0'))) == name,
{
    let whole = name.push('\0');
    encode_utf8_valid_utf8(whole);
    encode_utf8_decode_utf8(whole);
    assert(whole.drop_last() =~= name);
    reveal_with_fuel(without_trailing, 2);
}

/// An entry that is a directory is passed over; any other one comes before the files after it.
pub proof fn law_files_in_order(s: Seq<u8>, p: Parsed)
    requires
        cpio_entry(s) == Ok::<Found, CpioErrorView>(Found::Entry(p)),
    ensures
        is_directory(p.entry.mode) ==> cpio_files(s) == cpio_files(p.rest),
        !is_directory(p.entry.mode) ==> {
            &&& cpio_files(s).files == seq![(p.entry, p.body)] + cpio_files(p.rest).files
            &&& cpio_files(s).error == cpio_files(p.rest).error
        },
{
}

/// The bytes of `name` in an archive: its text, and the NUL that closes it.
pub open spec fn name_bytes(name: Seq<char>) -> Seq<u8> {
    encode_utf8(name.push('\0'))
}

/// An archive may change its variant between entries: a `newc` entry, an `odc` entry and a
/// trailer are read one after the other, and the bytes after the trailer are those that are left.
pub proof fn law_variants_follow_each_other(
    fields: Seq<u32>,
    first: Seq<char>,
    first_body: Seq<u8>,
    values: Seq<u64>,
    second: Seq<char>,
    second_body: Seq<u8>,
    last_fields: Seq<u32>,
    after: Seq<u8>,
)
    requires
        fields.len() == 13,
        fields[11] == name_bytes(first).len(),
        fields[6] == first_body.len(),
        odc_fits(values),
        values[8] == name_bytes(second).len(),
        values[9] == second_body.len(),
        last_fields.len() == 13,
        last_fields[11] == name_bytes("TRAILER!!!"@).len(),
        first.len() > 0 ==> first.last() != '\0',
        second.len() > 0 ==> second.last() != '\0',
        first != "TRAILER!!!"@,
        second != "TRAILER!!!"@,
    ensures
        ({
            let third = newc_bytes(last_fields, name_bytes("TRAILER!!!"@), Seq::empty()) + after;
            let rest = odc_bytes(values, name_bytes(second), second_body) + third;
            let all = newc_bytes(fields, name_bytes(first), first_body) + rest;
            &&& cpio_entry(all) == Ok::<Found, CpioErrorView>(
                Found::Entry(
                    Parsed {
                        entry: CpioEntryView {
                            name: first,
                            mode: fields[1],
                            file_size: first_body.len() as u64,
                        },
                        body: first_body,
                        rest,
                    },
                ),
            )
            &&& cpio_entry(rest) == Ok::<Found, CpioErrorView>(
                Found::Entry(
                    Parsed {
                        entry: CpioEntryView {
                            name: second,
                            mode: values[2] as u32,
                            file_size: second_body.len() as u64,
                        },
                        body: second_body,
                        rest: third,
                    },
                ),
            )
            &&& cpio_entry(third) == Ok::<Found, CpioErrorView>(Found::End { rest: after })
        }),
{
    reveal_strlit("TRAILER!!!");
    let third = newc_bytes(last_fields, name_bytes("TRAILER!!!"@), Seq::empty()) + after;
    let rest = odc_bytes(values, name_bytes(second), second_body) + third;
    law_name_read_back(first);
    law_name_read_back(second);
    law_name_read_back("TRAILER!!!"@);
    law_newc_trailer(last_fields, name_bytes("TRAILER!!!"@), after);
    law_odc_read_back(values, name_bytes(second), second_body, third);
    law_newc_read_back(fields, name_bytes(first), first_body, rest);
}

/// A file to be written in a `newc` archive.
pub ghost struct NewcFile {
    pub fields: Seq<u32>,
    pub name: Seq<u8>,
    pub body: Seq<u8>,
}

impl NewcFile {
    /// The header says how long the name and the body are, and the name is not the trailer's.
    pub open spec fn well_formed(self) -> bool {
        &&& self.fields.len() == 13
        &&& self.fields[11] == self.name.len()
        &&& self.fields[6] == self.body.len()
        &&& name_in(self.name) != "TRAILER!!!"@
    }

    /// The entry that is read back.
    pub open spec fn entry(self) -> CpioEntryView {
        CpioEntryView {
            name: name_in(self.name),
            mode: self.fields[1],
            file_size: self.body.len() as u64,
        }
    }
}

/// The bytes of a `newc` archive of `files`, up to its trailer.
pub open spec fn newc_archive(files: Seq<NewcFile>, trailer: Seq<u8>) -> Seq<u8>
    decreases files.len(),
{
    if files.len() == 0 {
        trailer
    } else {
        newc_bytes(files[0].fields, files[0].name, files[0].body) + newc_archive(
            files.drop_first(),
            trailer,
        )
    }
}

/// The files among `files` that are not directories, with their bodies.
pub open spec fn regular_files(files: Seq<NewcFile>) -> Seq<(CpioEntryView, Seq<u8>)>
    decreases files.len(),
{
    if files.len() == 0 {
        Seq::empty()
    } else if is_directory(files[0].fields[1]) {
        regular_files(files.drop_first())
    } else {
        seq![(files[0].entry(), files[0].body)] + regular_files(files.drop_first())
    }
}

/// An archive is read back: its files come out in order, without the directories, and without
/// an error.
pub proof fn law_archive_read_back(files: Seq<NewcFile>, trailer: Seq<u8>)
    requires
        forall|i: int| 0 <= i < files.len() ==> (#[trigger] files[i]).well_formed(),
        cpio_entry(trailer) matches Ok(Found::End { .. }),
    ensures
        cpio_files(newc_archive(files, trailer)).files == regular_files(files),
        cpio_files(newc_archive(files, trailer)).error is None,
    decreases files.len(),
{
    if files.len() > 0 {
        let f = files[0];
        let rest = files.drop_first();
        assert(f.well_formed());
        assert forall|i: int| 0 <= i < rest.len() implies (#[trigger] rest[i]).well_formed() by {
            assert(rest[i] == files[i + 1]);
        }
        law_archive_read_back(rest, trailer);
        law_newc_read_back(f.fields, f.name, f.body, newc_archive(rest, trailer));
    }
}

/// Every NUL at the end of a name is taken off, and none within it.
pub proof fn law_names_lose_their_nuls(name: Seq<char>, n: nat)
    requires
        name.len() > 0 ==> name.last() != '\0',
    ensures
        name_in(encode_utf8(name + Seq::new(n, |i: int| '\0'))) == name,
{
    let whole = name + Seq::new(n, |i: int| '\0');
    encode_utf8_valid_utf8(whole);
    encode_utf8_decode_utf8(whole);
    law_without_trailing(name, '\0', n);
}

/// An archive that is broken somewhere keeps the files before the break, and is told with the error
/// of the break.
pub proof fn law_files_before_a_break_are_kept(
    files: Seq<NewcFile>,
    broken: Seq<u8>,
    error: CpioErrorView,
)
    requires
        forall|i: int| 0 <= i < files.len() ==> (#[trigger] files[i]).well_formed(),
        cpio_entry(broken) == Err::<Found, CpioErrorView>(error),
    ensures
        cpio_files(newc_archive(files, broken)).files == regular_files(files),
        cpio_files(newc_archive(files, broken)).error == Some(error),
    decreases files.len(),
{
    if files.len() > 0 {
        let f = files[0];
        let rest = files.drop_first();
        assert(f.well_formed());
        assert forall|i: int| 0 <= i < rest.len() implies (#[trigger] rest[i]).well_formed() by {
            assert(rest[i] == files[i + 1]);
        }
        law_files_before_a_break_are_kept(rest, broken, error);
        law_newc_read_back(f.fields, f.name, f.body, newc_archive(rest, broken));
    }
}

/// The files that come out of an archive are the entries that are no directories: as many as there
/// are, and each as it was written.
pub proof fn law_every_file_comes_out(files: Seq<NewcFile>, i: int)
    requires
        0 <= i < files.len(),
        !is_directory(files[i].fields[1]),
    ensures
        regular_files(files).contains((files[i].entry(), files[i].body)),
        (forall|j: int| 0 <= j < files.len() ==> !is_directory((#[trigger] files[j]).fields[1]))
            ==> regular_files(files).len() == files.len() && regular_files(files)[i] == (
        files[i].entry(),
        files[i].body,
        ),
    decreases files.len(),
{
    let rest = files.drop_first();
    let own = (files[0].entry(), files[0].body);
    let more = regular_files(rest);
    lemma_regular_len(files);
    if i == 0 {
        assert(regular_files(files)[0] == own);
    } else {
        assert(rest[i - 1] == files[i]);
        law_every_file_comes_out(rest, i - 1);
        let k = choose|k: int|
            0 <= k < more.len() && more[k] == (files[i].entry(), files[i].body);
        if is_directory(files[0].fields[1]) {
            assert(regular_files(files)[k] == more[k]);
        } else {
            assert(regular_files(files)[k + 1] == more[k]);
        }
        if forall|j: int| 0 <= j < files.len() ==> !is_directory((#[trigger] files[j]).fields[1]) {
            assert forall|j: int| 0 <= j < rest.len() implies !is_directory(
                (#[trigger] rest[j]).fields[1],
            ) by {
                assert(rest[j] == files[j + 1]);
            }
            assert(!is_directory(files[0].fields[1]));
            assert(regular_files(files)[i] == more[i - 1]);
        }
    }
}

proof fn lemma_regular_len(files: Seq<NewcFile>)
    ensures
        (forall|j: int| 0 <= j < files.len() ==> !is_directory((#[trigger] files[j]).fields[1]))
            ==> regular_files(files).len() == files.len(),
    decreases files.len(),
{
    if files.len() > 0 {
        let rest = files.drop_first();
        lemma_regular_len(rest);
        if forall|j: int| 0 <= j < files.len() ==> !is_directory((#[trigger] files[j]).fields[1]) {
            assert forall|j: int| 0 <= j < rest.len() implies !is_directory(
                (#[trigger] rest[j]).fields[1],
            ) by {
                assert(rest[j] == files[j + 1]);
            }
            assert(!is_directory(files[0].fields[1]));
        }
    }
}

} // verus!
