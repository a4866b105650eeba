//! What messages tell.

use vstd::prelude::*;

use crate::cpio::CpioErrorView;
use crate::layout::FinalizeErrorView;
use crate::messages::{cpio_words, field_label, finalize_words, mojo_words, pkg_words, quoted};
use crate::mojo::MojoErrorView;
use crate::numbers::decimal;
use crate::pkg_error::PkgErrorView;
use crate::toc_read_laws::has_part;
use crate::utf8::lossy_text;

verus! {

/// `s` ends in `end`.
pub open spec fn ends_with(s: Seq<char>, end: Seq<char>) -> bool {
    s.len() >= end.len() && s.skip(s.len() - end.len()) == end
}

/// What stands between two texts is part of the whole.
proof fn lemma_between(a: Seq<char>, part: Seq<char>, b: Seq<char>)
    ensures
        has_part(a + part + b, part),
        ends_with(a + part, part),
        has_part(a + part, part),
{
    assert(a + part + b == (a + part) + b);
    assert((a + part).skip(a.len() as int) =~= part);
    assert(a + part =~= (a + part) + Seq::empty());
}

/// Every error of a package that concerns one of its archives names that archive, and every error
/// that another program part reported ends in what that part said.
pub proof fn law_package_errors_name_path_and_cause(error: PkgErrorView)
    ensures
        match error {
            PkgErrorView::TocUnreadable(cause) => ends_with(pkg_words(error), cause),
            PkgErrorView::TocMalformed(cause) => ends_with(pkg_words(error), cause),
            PkgErrorView::BlobGunzip { path, cause } => has_part(pkg_words(error), path)
                && ends_with(pkg_words(error), cause),
            PkgErrorView::BlobInflate { path, cause } => has_part(pkg_words(error), path)
                && ends_with(pkg_words(error), cause),
            PkgErrorView::ArchiveGunzip { path, cause } => has_part(pkg_words(error), path)
                && ends_with(pkg_words(error), cause),
            PkgErrorView::UnsupportedEncoding { path } => has_part(pkg_words(error), path),
            PkgErrorView::PastEnd { path, start, end, len } => {
                &&& has_part(pkg_words(error), path)
                &&& has_part(pkg_words(error), decimal(start as nat) + ".."@ + decimal(end as nat))
                &&& has_part(pkg_words(error), decimal(len as nat))
            },
            PkgErrorView::HeaderTooSmall(size) => has_part(pkg_words(error), decimal(size as nat)),
            PkgErrorView::Archive(inner) => pkg_words(error) == cpio_words(inner),
            _ => true,
        },
{
    let words = pkg_words(error);
    match error {
        PkgErrorView::TocUnreadable(cause) => {
            lemma_between("Failed to inflate XAR table of contents: "@, cause, Seq::empty());
        },
        PkgErrorView::TocMalformed(cause) => {
            lemma_between("Malformed XAR TOC XML: "@, cause, Seq::empty());
        },
        PkgErrorView::BlobGunzip { path, cause } => {
            let lead = "Failed to gunzip XAR heap blob '"@;
            lemma_between(lead, path, "': "@ + cause);
            assert(words =~= lead + path + ("': "@ + cause));
            lemma_between(lead + path + "': "@, cause, Seq::empty());
        },
        PkgErrorView::BlobInflate { path, cause } => {
            let lead = "Failed to inflate XAR heap blob '"@;
            lemma_between(lead, path, "': "@ + cause);
            assert(words =~= lead + path + ("': "@ + cause));
            lemma_between(lead + path + "': "@, cause, Seq::empty());
        },
        PkgErrorView::ArchiveGunzip { path, cause } => {
            let lead = "Failed to gunzip cpio stream '"@;
            lemma_between(lead, path, "': "@ + cause);
            assert(words =~= lead + path + ("': "@ + cause));
            lemma_between(lead + path + "': "@, cause, Seq::empty());
        },
        PkgErrorView::UnsupportedEncoding { path } => {
            lemma_between("Payload entry '"@, path, "' uses an unsupported XAR heap encoding"@);
        },
        PkgErrorView::PastEnd { path, start, end, len } => {
            let lead = "Payload entry '"@;
            let middle = "' extends past end of file (heap range "@;
            let range = decimal(start as nat) + ".."@ + decimal(end as nat);
            let tail = ", file len "@ + decimal(len as nat) + ")"@;
            lemma_between(lead, path, middle + range + tail);
            assert(words =~= lead + path + (middle + range + tail));
            lemma_between(lead + path + middle, range, tail);
            assert(words =~= lead + path + middle + range + tail);
            let before = lead + path + middle + range + ", file len "@;
            lemma_between(before, decimal(len as nat), ")"@);
            assert(words =~= before + decimal(len as nat) + ")"@);
        },
        PkgErrorView::HeaderTooSmall(size) => {
            lemma_between(
                "XAR header_size field ("@,
                decimal(size as nat),
                ") is smaller than the minimum 28 bytes"@,
            );
        },
        _ => {},
    }
}

/// Every error of a cpio archive that concerns a field names that field, with what stands in it or
/// what is wrong with it; and a variant that is not known is told with its magic number.
pub proof fn law_archive_errors_name_the_field(error: CpioErrorView)
    ensures
        match error {
            CpioErrorView::UnsupportedVariant(magic) => has_part(
                cpio_words(error),
                quoted(lossy_text(magic)),
            ),
            CpioErrorView::HeaderNotText(cause) => ends_with(cpio_words(error), cause),
            CpioErrorView::TruncatedField(field) => has_part(cpio_words(error), field_label(field)),
            CpioErrorView::FieldNotText(field, cause) => has_part(
                cpio_words(error),
                field_label(field),
            ) && ends_with(cpio_words(error), cause),
            CpioErrorView::MalformedField(field, text) => has_part(
                cpio_words(error),
                field_label(field),
            ) && has_part(cpio_words(error), quoted(text)),
            _ => true,
        },
{
    let words = cpio_words(error);
    match error {
        CpioErrorView::UnsupportedVariant(magic) => {
            lemma_between(
                "Unsupported cpio variant (expected newc magic '070701' or odc magic '070707', got "@,
                quoted(lossy_text(magic)),
                ")"@,
            );
        },
        CpioErrorView::HeaderNotText(cause) => {
            lemma_between("Non-ASCII cpio header field: "@, cause, Seq::empty());
        },
        CpioErrorView::TruncatedField(field) => {
            let lead = "Truncated cpio header field '"@;
            let tail = "'"@ + ": failed to fill whole buffer"@;
            lemma_between(lead, field_label(field), tail);
            assert(words =~= lead + field_label(field) + tail);
        },
        CpioErrorView::FieldNotText(field, cause) => {
            let lead = "Non-ASCII cpio header field '"@;
            lemma_between(lead, field_label(field), "': "@ + cause);
            assert(words =~= lead + field_label(field) + ("': "@ + cause));
            lemma_between(lead + field_label(field) + "': "@, cause, Seq::empty());
        },
        CpioErrorView::MalformedField(field, text) => {
            let lead = "Malformed cpio header field '"@;
            let head = lead + field_label(field) + "': "@;
            let whole = head + quoted(text);
            let tail = words.skip(whole.len() as int);
            assert(words =~= whole + tail);
            lemma_between(head, quoted(text), tail);
            let rest = "': "@ + quoted(text) + tail;
            lemma_between(lead, field_label(field), rest);
            assert(words =~= lead + field_label(field) + rest);
        },
        _ => {},
    }
}

/// Every error of a ZIP archive ends in its cause, and names the entry that it concerns.
pub proof fn law_zip_errors_name_entry_and_cause(error: MojoErrorView)
    ensures
        match error {
            MojoErrorView::Open(cause) => ends_with(mojo_words(error), cause),
            MojoErrorView::Worker(cause) => ends_with(mojo_words(error), cause),
            MojoErrorView::Entry { index, cause } => has_part(
                mojo_words(error),
                decimal(index as nat),
            ) && ends_with(mojo_words(error), cause),
            MojoErrorView::Unpack { name, cause } => has_part(mojo_words(error), name)
                && ends_with(mojo_words(error), cause),
        },
{
    let words = mojo_words(error);
    match error {
        MojoErrorView::Open(cause) => {
            lemma_between("Failed to open ZIP archive: "@, cause, Seq::empty());
        },
        MojoErrorView::Worker(cause) => {
            lemma_between(
                "ZIP archive init failed for worker: Failed to open ZIP archive for worker: "@,
                cause,
                Seq::empty(),
            );
        },
        MojoErrorView::Entry { index, cause } => {
            let lead = "Failed to read ZIP entry #"@;
            let number = decimal(index as nat);
            lemma_between(lead, number, ": "@ + cause);
            assert(words =~= lead + number + (": "@ + cause));
            lemma_between(lead + number + ": "@, cause, Seq::empty());
        },
        MojoErrorView::Unpack { name, cause } => {
            let lead = "Failed to write "@;
            lemma_between(lead, name, ": "@ + cause);
            assert(words =~= lead + name + (": "@ + cause));
            lemma_between(lead + name + ": "@, cause, Seq::empty());
        },
    }
}

/// Every error in putting the output in place names the path that it concerns and ends in its cause;
/// and where the previous output could not be moved back, what went wrong before is told as well.
pub proof fn law_errors_in_placing_name_path_and_cause(
    error: FinalizeErrorView,
    output: Seq<u8>,
    backup: Seq<u8>,
)
    ensures
        ({
            let words = finalize_words(error, output, backup);
            match error {
                FinalizeErrorView::MoveAside(cause) => has_part(words, lossy_text(output))
                    && ends_with(words, cause),
                FinalizeErrorView::MoveIntoPlace(cause) => has_part(words, lossy_text(output))
                    && ends_with(words, cause),
                FinalizeErrorView::RemoveBackup(cause) => has_part(words, lossy_text(backup))
                    && ends_with(words, cause),
                FinalizeErrorView::Restore { cause, rename_cause } => {
                    &&& has_part(words, lossy_text(output))
                    &&& has_part(words, rename_cause)
                    &&& ends_with(words, cause)
                },
            }
        }),
{
    let words = finalize_words(error, output, backup);
    match error {
        FinalizeErrorView::MoveAside(cause) => {
            lemma_path_and_cause(
                words,
                "Failed to move existing "@,
                lossy_text(output),
                " out of the way: "@,
                cause,
            );
        },
        FinalizeErrorView::MoveIntoPlace(cause) => {
            lemma_path_and_cause(
                words,
                "Failed to move staging directory into place as "@,
                lossy_text(output),
                ": "@,
                cause,
            );
        },
        FinalizeErrorView::RemoveBackup(cause) => {
            lemma_path_and_cause(
                words,
                "Failed to remove previous output backup "@,
                lossy_text(backup),
                ": "@,
                cause,
            );
        },
        FinalizeErrorView::Restore { cause, rename_cause } => {
            let lead = "Failed to restore previous output "@;
            let middle = " after replacement failed (original rename error: "@;
            lemma_path_and_cause(
                words,
                lead,
                lossy_text(output),
                middle + rename_cause + "): "@,
                cause,
            );
            lemma_path_and_cause(
                words,
                lead + lossy_text(output) + middle,
                rename_cause,
                "): "@,
                cause,
            );
        },
    }
}

proof fn lemma_path_and_cause(
    words: Seq<char>,
    lead: Seq<char>,
    path: Seq<char>,
    middle: Seq<char>,
    cause: Seq<char>,
)
    requires
        words =~= lead + path + middle + cause,
    ensures
        has_part(words, path),
        ends_with(words, cause),
{
    lemma_between(lead, path, middle + cause);
    assert(words =~= lead + path + (middle + cause));
    lemma_between(lead + path + middle, cause, Seq::empty());
}

} // verus!
