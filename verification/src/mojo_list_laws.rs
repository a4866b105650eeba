//! What holds of the listing and the counts of a ZIP archive.

use vstd::prelude::*;

use crate::mojo::{archive_entries, bytes_in, digits, entries_between, entry_line, files_found};
use crate::mojo::{files_in, listing_of, time_text, MojoErrorView};
use crate::numbers::{counted, decimal, is_digit, number_in, padded_end};
use crate::text_laws::{law_decimal_digits, law_leading_zeros};
use crate::text_laws::{law_padded_end, law_padded_start};
use crate::zip_archive::{entry_found, entry_total, open_error, raw_entry_name};
use crate::zip_archive::{ZipMeta, ZipTime};

verus! {

// ---------------------------------------------------------------------------
// The entries of an archive
// ---------------------------------------------------------------------------

proof fn lemma_between(data: Seq<u8>, from: nat, to: nat)
    requires
        from <= to,
    ensures
        match entries_between(data, from, to) {
            Ok(entries) => {
                &&& entries.len() == to - from
                &&& forall|i: int|
                    0 <= i < to - from ==> entry_found(data, (from + i) as nat) == Ok::<
                        ZipMeta,
                        Seq<char>,
                    >(#[trigger] entries[i])
            },
            Err(e) => exists|i: nat|
                {
                    &&& from <= i < to
                    &&& #[trigger] entry_found(data, i) matches Err(cause) && e == (
                    MojoErrorView::Entry { index: i as int, cause })
                    &&& forall|j: nat| from <= j < i ==> #[trigger] entry_found(data, j) is Ok
                },
        },
    decreases to - from,
{
    if from < to {
        lemma_between(data, from + 1, to);
        match entries_between(data, from, to) {
            Ok(entries) => {
                let rest = entries_between(data, from + 1, to)->Ok_0;
                assert forall|i: int| 0 <= i < to - from implies entry_found(
                    data,
                    (from + i) as nat,
                ) == Ok::<ZipMeta, Seq<char>>(#[trigger] entries[i]) by {
                    if i > 0 {
                        assert(entries[i] == rest[i - 1]);
                        assert(from + 1 + (i - 1) == from + i);
                    }
                }
            },
            Err(e) => {
                if entry_found(data, from) is Ok {
                    let i = choose|i: nat|
                        {
                            &&& from + 1 <= i < to
                            &&& #[trigger] entry_found(data, i) matches Err(cause) && e == (
                            MojoErrorView::Entry { index: i as int, cause })
                            &&& forall|j: nat|
                                from + 1 <= j < i ==> #[trigger] entry_found(data, j) is Ok
                        };
                    assert(entry_found(data, i) is Err);
                } else {
                    assert(entry_found(data, from) is Err);
                }
            },
        }
    }
}

/// An archive that can be opened, and of which every entry can be read, has these entries, in
/// order: as many as the archive says, the one at each index as the archive tells of it.
pub proof fn law_all_entries_are_read(data: Seq<u8>, entries: Seq<ZipMeta>)
    requires
        open_error(data) is None,
        entries.len() == entry_total(data),
        forall|i: int|
            0 <= i < entries.len() ==> entry_found(data, i as nat) == Ok::<ZipMeta, Seq<char>>(
                #[trigger] entries[i],
            ),
    ensures
        archive_entries(data) == Ok::<Seq<ZipMeta>, MojoErrorView>(entries),
{
    lemma_between(data, 0, entry_total(data));
    match entries_between(data, 0, entry_total(data)) {
        Ok(found) => {
            assert forall|i: int| 0 <= i < entries.len() implies found[i] == entries[i] by {
                assert(entry_found(data, (0 + i) as nat) == Ok::<ZipMeta, Seq<char>>(found[i]));
            }
            assert(found =~= entries);
        },
        Err(_) => {
            let i = choose|i: nat| 0 <= i < entry_total(data) && #[trigger] entry_found(data, i) is Err;
            assert(entry_found(data, i) == Ok::<ZipMeta, Seq<char>>(entries[i as int]));
        },
    }
}

/// An archive that cannot be opened has no listing, nor has one with an entry that cannot be read:
/// the first such entry is told of, by its index and the cause.
pub proof fn law_the_first_bad_entry_is_told_of(data: Seq<u8>)
    ensures
        open_error(data) matches Some(cause) ==> archive_entries(data) == Err::<
            Seq<ZipMeta>,
            MojoErrorView,
        >(MojoErrorView::Open(cause)),
        open_error(data) is None ==> (archive_entries(data) matches Err(e) ==> exists|i: nat|
            {
                &&& i < entry_total(data)
                &&& #[trigger] entry_found(data, i) matches Err(cause) && e == (
                MojoErrorView::Entry { index: i as int, cause })
                &&& forall|j: nat| j < i ==> #[trigger] entry_found(data, j) is Ok
            }),
{
    lemma_between(data, 0, entry_total(data));
}

// ---------------------------------------------------------------------------
// Lines
// ---------------------------------------------------------------------------

/// `line` tells of an entry of `size` bytes called `name`: the size in decimal, spaces up to a width
/// of ten and two more, `when`, two spaces, and the name.
pub open spec fn tells_of(line: Seq<char>, size: u64, when: Seq<char>, name: Seq<char>) -> bool {
    let number = decimal(size as nat);
    let column = if number.len() < 10 {
        12int
    } else {
        number.len() as int + 2
    };
    &&& line.len() == column + when.len() + 2 + name.len()
    &&& line.take(number.len() as int) == number
    &&& forall|i: int| number.len() <= i < column ==> #[trigger] line[i] == ' '
    &&& line.subrange(column, column + when.len()) == when
    &&& line[column + when.len()] == ' '
    &&& line[column + when.len() + 1] == ' '
    &&& line.skip(column + when.len() + 2) == name
}

proof fn lemma_entry_line(entry: ZipMeta)
    ensures
        tells_of(entry_line(entry), entry.size, time_text(entry.modified), entry.name),
{
    reveal_strlit("  ");
    let line = entry_line(entry);
    let number = decimal(entry.size as nat);
    let when = time_text(entry.modified);
    law_padded_end(number, 10);
    let first = padded_end(number, 10);
    let column = first.len() as int + 2;
    assert(line.take(number.len() as int) =~= number) by {
        assert forall|i: int| 0 <= i < number.len() implies line[i] == number[i] by {
            assert(line[i] == first[i]);
            assert(first.take(number.len() as int)[i] == number[i]);
        }
    }
    assert forall|i: int| number.len() <= i < column implies #[trigger] line[i] == ' ' by {
        if i < first.len() {
            assert(line[i] == first[i]);
        }
    }
    assert(line.subrange(column, column + when.len()) =~= when);
    assert(line.skip(column + when.len() + 2) =~= entry.name);
}

/// A listing of an archive has one line for each entry, between a heading and a rule above them and
/// a rule and a summary below: the line at index two and more is that of the entry two before, and
/// tells of its size, its time and its name.
pub proof fn law_every_entry_is_listed(data: Seq<u8>, entries: Seq<ZipMeta>)
    requires
        archive_entries(data) == Ok::<Seq<ZipMeta>, MojoErrorView>(entries),
    ensures
        ({
            let lines = listing_of(entries);
            let n = entries.len() as int;
            &&& n == entry_total(data)
            &&& lines.len() == n + 4
            &&& lines[0] == "Size        Modified             Name"@
            &&& lines[1] == lines[n + 2]
            &&& lines[1].len() == 72
            &&& forall|i: int| 0 <= i < 72 ==> #[trigger] lines[1][i] == '-'
            &&& forall|i: int|
                0 <= i < n ==> entry_found(data, i as nat) == Ok::<ZipMeta, Seq<char>>(
                    #[trigger] entries[i],
                ) && tells_of(
                    lines[i + 2],
                    entries[i].size,
                    time_text(entries[i].modified),
                    entries[i].name,
                )
        }),
{
    lemma_between(data, 0, entry_total(data));
    let lines = listing_of(entries);
    let n = entries.len() as int;
    assert forall|i: int| 0 <= i < n implies entry_found(data, i as nat) == Ok::<
        ZipMeta,
        Seq<char>,
    >(#[trigger] entries[i]) && tells_of(
        lines[i + 2],
        entries[i].size,
        time_text(entries[i].modified),
        entries[i].name,
    ) by {
        assert(0 + i == i);
        lemma_entry_line(entries[i]);
        assert(lines[i + 2] == entry_line(entries[i]));
    }
}

/// The last line of a listing tells how many files there are, and how many bytes they have
/// together, as far as a counter of sixty-four bits holds them.
pub proof fn law_the_last_line_sums_up(entries: Seq<ZipMeta>)
    ensures
        ({
            let line = listing_of(entries).last();
            let files = decimal(files_in(entries));
            let bytes = decimal((bytes_in(entries) % 0x1_0000_0000_0000_0000) as nat);
            &&& line == files + " file(s), "@ + bytes + " bytes uncompressed"@
        }),
{
    reveal(counted);
}

/// `entry` is a directory: its name ends in a slash or a backslash.
pub open spec fn is_folder(entry: ZipMeta) -> bool {
    &&& entry.name.len() > 0
    &&& entry.name[entry.name.len() - 1] == '/' || entry.name[entry.name.len() - 1] == '\\'
}

/// Files and their bytes add up: those of two runs of entries are those of either together; one
/// entry alone is one file with its own size, or none where it is a directory.
pub proof fn law_files_add_up(a: Seq<ZipMeta>, b: Seq<ZipMeta>, entry: ZipMeta)
    ensures
        files_in(a + b) == files_in(a) + files_in(b),
        bytes_in(a + b) == bytes_in(a) + bytes_in(b),
        files_in(seq![entry]) == if is_folder(entry) {
            0nat
        } else {
            1
        },
        bytes_in(seq![entry]) == if is_folder(entry) {
            0
        } else {
            entry.size as nat
        },
        files_in(Seq::empty()) == 0,
        bytes_in(Seq::empty()) == 0,
    decreases b.len(),
{
    reveal_with_fuel(files_in, 2);
    reveal_with_fuel(bytes_in, 2);
    assert(seq![entry].drop_last() =~= Seq::empty());
    if b.len() == 0 {
        assert(a + b =~= a);
    } else {
        law_files_add_up(a, b.drop_last(), entry);
        assert((a + b).drop_last() =~= a + b.drop_last());
    }
}

/// The files of an archive are counted one by one: each entry that can be found and is no directory
/// is one more, whatever the number of entries.
pub proof fn law_found_files_are_counted(data: Seq<u8>, n: nat)
    ensures
        files_found(data, 0) == 0,
        files_found(data, n + 1) - files_found(data, n) == match raw_entry_name(data, n) {
            Some(name) => if name.len() > 0 && (name[name.len() - 1] == '/' || name[name.len() - 1]
                == '\\') {
                0int
            } else {
                1
            },
            None => 0,
        },
        files_found(data, n) <= n,
    decreases n,
{
    if n > 0 {
        law_found_files_are_counted(data, (n - 1) as nat);
    }
}

/// A counter of sixty-four bits counts exactly until it is full, and starts over then.
pub proof fn law_counter(n: int)
    ensures
        0 <= n <= u64::MAX ==> counted(n) == n,
        counted(n + 0x1_0000_0000_0000_0000) == counted(n),
{
    reveal(counted);
}

// ---------------------------------------------------------------------------
// Times
// ---------------------------------------------------------------------------

proof fn lemma_two_digits(n: nat)
    requires
        n < 100,
    ensures
        digits(n as int, 2).len() == 2,
        number_in(digits(n as int, 2), 10, 99) == Some(n),
{
    lemma_digits(n, 2, 99);
}

proof fn lemma_decimal_len(n: nat)
    ensures
        n < 100 ==> decimal(n).len() <= 2,
        n < 1000 ==> decimal(n).len() <= 3,
        n < 10000 ==> decimal(n).len() <= 4,
{
    reveal_with_fuel(decimal, 5);
}

proof fn lemma_digits(n: nat, width: int, max: nat)
    requires
        width == 2 && max == 99 || width == 4 && max == 9999,
        n <= max,
    ensures
        digits(n as int, width).len() == width,
        number_in(digits(n as int, width), 10, max) == Some(n),
{
    let text = digits(n as int, width);
    let number = decimal(n);
    lemma_decimal_len(n);
    law_decimal_digits(n);
    law_padded_start(number, '0', width);
    let more = text.len() - number.len();
    let zeros = text.take(more);
    assert(text =~= zeros + text.skip(more));
    assert forall|i: int| 0 <= i < zeros.len() implies #[trigger] zeros[i] == '0' by {
        assert(zeros[i] == text[i]);
    }
    law_leading_zeros(number, zeros);
    assert forall|i: int| 0 <= i < text.len() implies is_digit(#[trigger] text[i], 10) by {
        if i >= more {
            assert(text[i] == text.skip(more)[i - more]);
            assert('0' <= number[i - more] <= '9');
        }
    }
    assert(text[0] != '+') by {
        assert(is_digit(text[0], 10));
    }
}

/// The time of an entry is told in nineteen characters: the year in four, the month, the day, the
/// hour, the minute and the second in two each, with dashes, a space and colons between them.
pub proof fn law_times_are_told(t: ZipTime)
    requires
        t.year <= 9999,
        t.month <= 99 && t.day <= 99 && t.hour <= 99 && t.minute <= 99 && t.second <= 99,
    ensures
        ({
            let text = time_text(Some(t));
            &&& text.len() == 19
            &&& number_in(text.subrange(0, 4), 10, 9999) == Some(t.year as nat)
            &&& text[4] == '-'
            &&& number_in(text.subrange(5, 7), 10, 99) == Some(t.month as nat)
            &&& text[7] == '-'
            &&& number_in(text.subrange(8, 10), 10, 99) == Some(t.day as nat)
            &&& text[10] == ' '
            &&& number_in(text.subrange(11, 13), 10, 99) == Some(t.hour as nat)
            &&& text[13] == ':'
            &&& number_in(text.subrange(14, 16), 10, 99) == Some(t.minute as nat)
            &&& text[16] == ':'
            &&& number_in(text.subrange(17, 19), 10, 99) == Some(t.second as nat)
        }),
{
    reveal_strlit("-");
    reveal_strlit(" ");
    reveal_strlit(":");
    lemma_digits(t.year as nat, 4, 9999);
    lemma_two_digits(t.month as nat);
    lemma_two_digits(t.day as nat);
    lemma_two_digits(t.hour as nat);
    lemma_two_digits(t.minute as nat);
    lemma_two_digits(t.second as nat);
    let text = time_text(Some(t));
    assert(text.subrange(0, 4) =~= digits(t.year as int, 4));
    assert(text.subrange(5, 7) =~= digits(t.month as int, 2));
    assert(text.subrange(8, 10) =~= digits(t.day as int, 2));
    assert(text.subrange(11, 13) =~= digits(t.hour as int, 2));
    assert(text.subrange(14, 16) =~= digits(t.minute as int, 2));
    assert(text.subrange(17, 19) =~= digits(t.second as int, 2));
}

/// Where the time of an entry is not known, as many characters say so.
pub proof fn law_unknown_times_are_told()
    ensures
        time_text(None).len() == 19,
        time_text(None).take(7) == "unknown"@,
        forall|i: int| 7 <= i < 19 ==> #[trigger] time_text(None)[i] == ' ',
{
    reveal_strlit("unknown            ");
    reveal_strlit("unknown");
    assert(time_text(None).take(7) =~= "unknown"@);
}

} // verus!
