//! What holds of the lines that `innoextract` writes.

use vstd::prelude::*;
use vstd::utf8::{encode_utf8, encode_utf8_decode_utf8, encode_utf8_valid_utf8};

use crate::inno::{
    detected, exit_meaning, file_line_count, is_file_line, is_written, listing, named_file, step_of,
    InnoEventView, InnoExit, InnoStepView,
};
use crate::numbers::{counted, decimal};
use crate::safe_path::lemma_filter_all;
use crate::split::lines_of;
use crate::text::{is_space, trimmed, trimmed_end, trimmed_start, without_leading};
use crate::text_laws::{law_decimals_differ, law_lines, law_trimmed};
use crate::toc_read_laws::is_blank;
use crate::utf8::lossy_text;

verus! {

// ---------------------------------------------------------------------------
// Names of files
// ---------------------------------------------------------------------------

/// All the characters of `s` are dashes.
pub open spec fn is_dashes(s: Seq<char>) -> bool {
    forall|i: int| 0 <= i < s.len() ==> #[trigger] s[i] == '-'
}

/// The first and the last character of `s` are no white space.
pub open spec fn is_tight(s: Seq<char>) -> bool {
    s.len() > 0 && !is_space(s[0]) && !is_space(s.last())
}

proof fn lemma_without_leading(dashes: Seq<char>, s: Seq<char>)
    requires
        is_dashes(dashes),
        s.len() > 0 ==> s[0] != '-',
    ensures
        without_leading(dashes + s, '-') == s,
    decreases dashes.len(),
{
    let all = dashes + s;
    if dashes.len() == 0 {
        assert(all =~= s);
    } else {
        assert(all[0] == dashes[0]);
        assert(all.drop_first() =~= dashes.drop_first() + s);
        assert forall|i: int| 0 <= i < dashes.drop_first().len() implies #[trigger] dashes.drop_first()[i]
            == '-' by {
            assert(dashes.drop_first()[i] == dashes[i + 1]);
        }
        lemma_without_leading(dashes.drop_first(), s);
    }
}

/// The name of a file is read back from its line, whatever dashes and white space stand before it
/// and whatever white space behind it, and counts as one more file.
pub proof fn law_names_are_read_back(
    a: Seq<char>,
    dashes: Seq<char>,
    b: Seq<char>,
    name: Seq<char>,
    c: Seq<char>,
    count: u64,
)
    requires
        is_blank(a),
        is_dashes(dashes),
        is_blank(b),
        is_tight(name),
        name[0] != '-',
        is_blank(c),
    ensures
        named_file(a + dashes + b + name + c) == name,
        step_of(InnoEventView::Filename(a + dashes + b + name + c), true, count) == (
        InnoStepView::FileDone {
            files_done: if count < u64::MAX {
                (count + 1) as u64
            } else {
                0
            },
            name,
        }),
{
    let line = a + dashes + b + name + c;
    let none = Seq::<char>::empty();
    assert(!is_space('-'));
    if dashes.len() > 0 {
        let inner = dashes + b + name;
        assert(line =~= a + inner + c);
        assert(inner[0] == dashes[0]);
        assert(inner.last() == name.last());
        law_trimmed(a, inner, c);
        assert(inner =~= dashes + (b + name));
        if b.len() > 0 {
            assert((b + name)[0] == b[0]);
            assert(is_space(b[0]));
        } else {
            assert((b + name)[0] == name[0]);
        }
        lemma_without_leading(dashes, b + name);
    } else {
        let before = a + b;
        assert(line =~= before + name + c);
        assert forall|i: int| 0 <= i < before.len() implies is_space(#[trigger] before[i]) by {
            if i < a.len() {
                assert(before[i] == a[i]);
            } else {
                assert(before[i] == b[i - a.len()]);
            }
        }
        law_trimmed(before, name, c);
        assert(none + name =~= name);
        lemma_without_leading(none, name);
        law_trimmed(none, name, none);
        assert(none + name + none =~= name);
    }
    law_trimmed(b, name, none);
    assert(b + name + none =~= b + name);
    assert(counted(count + 1) == if count < u64::MAX {
        (count + 1) as u64
    } else {
        0
    }) by {
        reveal(counted);
    }
}

/// A line of dashes and white space names no file and counts for none.
pub proof fn law_lines_without_a_name_are_passed(
    a: Seq<char>,
    dashes: Seq<char>,
    b: Seq<char>,
    count: u64,
)
    requires
        is_blank(a),
        is_dashes(dashes),
        is_blank(b),
    ensures
        step_of(InnoEventView::Filename(a + dashes + b), true, count) == InnoStepView::Pass,
{
    let none = Seq::<char>::empty();
    assert(!is_space('-'));
    if dashes.len() > 0 {
        assert(dashes[dashes.len() - 1] == '-');
        assert(dashes[0] == '-');
    }
    law_trimmed(a, dashes, b);
    lemma_without_leading(dashes, none);
    assert(dashes + none =~= dashes);
    law_trimmed(none, none, none);
    assert(none + none + none =~= none);
}

/// What the program writes to its error stream is passed on as it is; and a run that is no longer
/// wanted is stopped, whatever the line.
pub proof fn law_errors_are_passed_on(event: InnoEventView, line: Seq<char>, count: u64)
    ensures
        step_of(InnoEventView::Stderr(line), true, count) == InnoStepView::Log(line),
        step_of(event, false, count) == InnoStepView::Stop,
        step_of(event, true, count) != InnoStepView::Stop,
{
}

// ---------------------------------------------------------------------------
// Listings
// ---------------------------------------------------------------------------

/// A line tells of a file if its first character that is no white space is a dash.
pub proof fn law_file_lines(a: Seq<char>, c: char, rest: Seq<char>)
    requires
        is_blank(a),
        !is_space(c),
    ensures
        is_file_line(a + seq![c] + rest) <==> c == '-',
        !is_file_line(a),
{
    let none = Seq::<char>::empty();
    let behind = seq![c] + rest;
    assert(a + behind =~= a + seq![c] + rest);
    lemma_start(a, behind);
    lemma_start(a, none);
    assert(a + none =~= a);
}

proof fn lemma_start(a: Seq<char>, s: Seq<char>)
    requires
        is_blank(a),
        s.len() > 0 ==> !is_space(s[0]),
    ensures
        trimmed_start(a + s) == s,
    decreases a.len(),
{
    if a.len() == 0 {
        assert(a + s =~= s);
    } else {
        let rest = a.drop_first();
        assert((a + s)[0] == a[0]);
        assert((a + s).drop_first() =~= rest + s);
        assert forall|i: int| 0 <= i < rest.len() implies is_space(#[trigger] rest[i]) by {
            assert(rest[i] == a[i + 1]);
        }
        lemma_start(rest, s);
    }
}

/// The files of two listings, one behind the other, are those of the one and those of the other;
/// and a single line tells of one file or of none.
pub proof fn law_listed_files_add_up(a: Seq<Seq<char>>, b: Seq<Seq<char>>, line: Seq<char>)
    ensures
        file_line_count(a + b) == file_line_count(a) + file_line_count(b),
        file_line_count(seq![line]) == if is_file_line(line) {
            1nat
        } else {
            0
        },
        file_line_count(Seq::<Seq<char>>::empty()) == 0,
    decreases b.len(),
{
    reveal_with_fuel(file_line_count, 2);
    assert(seq![line].drop_last() =~= Seq::empty());
    assert(seq![line].last() == line);
    if b.len() == 0 {
        assert(a + b =~= a);
    } else {
        assert((a + b).drop_last() =~= a + b.drop_last());
        assert((a + b).last() == b.last());
        law_listed_files_add_up(a, b.drop_last(), line);
    }
}

/// `lines`, each with a line feed behind it.
pub open spec fn written(lines: Seq<Seq<char>>) -> Seq<char>
    decreases lines.len(),
{
    if lines.len() == 0 {
        Seq::empty()
    } else {
        lines[0].push('\n') + written(lines.drop_first())
    }
}

/// `line` is one line: no line feed stands in it, and no carriage return at its end.
pub open spec fn is_one_line(line: Seq<char>) -> bool {
    !line.contains('\n') && (line.len() > 0 ==> line.last() != '\r')
}

proof fn lemma_written(lines: Seq<Seq<char>>)
    requires
        forall|i: int| 0 <= i < lines.len() ==> is_one_line(#[trigger] lines[i]),
    ensures
        lines_of(written(lines)) == lines,
    decreases lines.len(),
{
    if lines.len() > 0 {
        let rest = lines.drop_first();
        assert(is_one_line(lines[0]));
        assert forall|i: int| 0 <= i < rest.len() implies is_one_line(#[trigger] rest[i]) by {
            assert(rest[i] == lines[i + 1]);
        }
        lemma_written(rest);
        law_lines(lines[0], written(rest));
        assert(seq![lines[0]] + rest =~= lines);
    }
}

proof fn lemma_filter_none(lines: Seq<Seq<char>>, pred: spec_fn(Seq<char>) -> bool)
    requires
        forall|i: int| 0 <= i < lines.len() ==> !pred(#[trigger] lines[i]),
    ensures
        lines.filter(pred) == Seq::<Seq<char>>::empty(),
    decreases lines.len(),
{
    reveal(Seq::filter);
    if lines.len() > 0 {
        let before = lines.drop_last();
        assert(!pred(lines[lines.len() - 1]));
        assert forall|i: int| 0 <= i < before.len() implies !pred(#[trigger] before[i]) by {
            assert(before[i] == lines[i]);
        }
        lemma_filter_none(before, pred);
    }
}

/// `line` holds a character that is no white space.
pub open spec fn has_ink(line: Seq<char>) -> bool {
    exists|i: int| 0 <= i < line.len() && !is_space(#[trigger] line[i])
}

pub proof fn lemma_has_ink(line: Seq<char>)
    ensures
        has_ink(line) == is_written(line),
    decreases line.len(),
{
    let none = Seq::<char>::empty();
    if !has_ink(line) {
        assert(is_blank(line));
        law_trimmed(line, none, none);
        assert(line + none + none =~= line);
    } else {
        lemma_ink_start(line);
    }
}

proof fn lemma_ink_start(line: Seq<char>)
    requires
        has_ink(line),
    ensures
        trimmed(line).len() > 0,
    decreases line.len(),
{
    let i = choose|i: int| 0 <= i < line.len() && !is_space(#[trigger] line[i]);
    if is_space(line[0]) {
        let rest = line.drop_first();
        assert(rest[i - 1] == line[i]);
        lemma_ink_start(rest);
    } else {
        lemma_ink_end(line);
    }
}

proof fn lemma_ink_end(line: Seq<char>)
    requires
        line.len() > 0,
        !is_space(line[0]),
    ensures
        trimmed_end(line).len() > 0,
    decreases line.len(),
{
    if is_space(line.last()) {
        assert(line.drop_last()[0] == line[0]);
        lemma_ink_end(line.drop_last());
    }
}

/// A listing is all that the program wrote, line by line: every line of its output, blank or not,
/// and after those every line of its error stream that holds something.
pub proof fn law_listings_are_complete(
    out: Seq<Seq<char>>,
    err: Seq<Seq<char>>,
    blanks: Seq<Seq<char>>,
)
    requires
        forall|i: int| 0 <= i < out.len() ==> is_one_line(#[trigger] out[i]),
        forall|i: int| 0 <= i < err.len() ==> is_one_line(#[trigger] err[i]),
        forall|i: int| 0 <= i < blanks.len() ==> is_one_line(#[trigger] blanks[i]),
        forall|i: int| 0 <= i < err.len() ==> has_ink(#[trigger] err[i]),
        forall|i: int| 0 <= i < blanks.len() ==> is_blank(#[trigger] blanks[i]),
    ensures
        listing(encode_utf8(written(out)), encode_utf8(written(err))) == out + err,
        listing(encode_utf8(written(out)), encode_utf8(written(blanks))) == out,
        listing(encode_utf8(written(out)), encode_utf8(written(blanks + err))) == out + err,
        listing(encode_utf8(written(out)), encode_utf8(written(err + blanks))) == out + err,
{
    let pred = |line: Seq<char>| is_written(line);
    lemma_written(out);
    lemma_written(err);
    lemma_written(blanks);
    let first = blanks + err;
    let last = err + blanks;
    assert forall|i: int| 0 <= i < first.len() implies is_one_line(#[trigger] first[i]) by {
        if i < blanks.len() {
            assert(first[i] == blanks[i]);
        } else {
            assert(first[i] == err[i - blanks.len()]);
        }
    }
    assert forall|i: int| 0 <= i < last.len() implies is_one_line(#[trigger] last[i]) by {
        if i < err.len() {
            assert(last[i] == err[i]);
        } else {
            assert(last[i] == blanks[i - err.len()]);
        }
    }
    lemma_written(first);
    lemma_written(last);
    assert forall|i: int| 0 <= i < err.len() implies pred(#[trigger] err[i]) by {
        lemma_has_ink(err[i]);
    }
    assert forall|i: int| 0 <= i < blanks.len() implies !pred(#[trigger] blanks[i]) by {
        lemma_has_ink(blanks[i]);
        assert(is_blank(blanks[i]));
    }
    lemma_filter_all(err, pred);
    lemma_filter_none(blanks, pred);
    Seq::filter_distributes_over_add(blanks, err, pred);
    Seq::filter_distributes_over_add(err, blanks, pred);
    let none = Seq::<Seq<char>>::empty();
    assert(none + err =~= err);
    assert(err + none =~= err);
    assert(out + none =~= out);
    lemma_text(written(out));
    lemma_text(written(err));
    lemma_text(written(blanks));
    lemma_text(written(first));
    lemma_text(written(last));
}

proof fn lemma_text(text: Seq<char>)
    ensures
        lossy_text(encode_utf8(text)) == text,
{
    encode_utf8_decode_utf8(text);
    encode_utf8_valid_utf8(text);
}

// ---------------------------------------------------------------------------
// The end
// ---------------------------------------------------------------------------

/// A program that succeeds has finished, even if it was to be stopped; one that fails after it was
/// to be stopped, or that Ctrl-C stopped on Windows, was stopped; and any other failure is told
/// with its code, or with zero where there is none.
pub proof fn law_exits_are_told_apart(
    success: bool,
    code: Option<i32>,
    running: bool,
    windows: bool,
)
    ensures
        exit_meaning(success, code, running, windows) == InnoExit::Finished <==> success,
        exit_meaning(success, code, running, windows) == InnoExit::Cancelled <==> !success && (
        !running || windows && code == Some(-1073741510i32)),
        exit_meaning(success, code, running, windows) matches InnoExit::Failed { code: told } ==> {
            &&& code matches Some(own) ==> told == own
            &&& code is None ==> told == 0
        },
{
}

/// The number of files that the log tells is the one that is known, and different numbers are told
/// differently.
pub proof fn law_detected_files_are_told(n: u64, other: u64)
    ensures
        detected(Some(n)) == "Detected "@ + decimal(n as nat) + " file(s) to extract."@,
        detected(Some(n)) == detected(Some(other)) ==> n == other,
{
    let a = decimal(n as nat);
    let b = decimal(other as nat);
    let lead = "Detected "@;
    let tail = " file(s) to extract."@;
    if detected(Some(n)) == detected(Some(other)) {
        let text = detected(Some(n));
        assert(a.len() == b.len());
        assert(text.subrange(lead.len() as int, (lead.len() + a.len()) as int) =~= a);
        assert(text.subrange(lead.len() as int, (lead.len() + b.len()) as int) =~= b);
        law_decimals_differ(n as nat, other as nat);
    }
}

} // verus!
