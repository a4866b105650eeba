//! What the user is told.

use vstd::prelude::*;

use crate::cpio::{CpioError, CpioErrorView, OdcField};
use crate::detect::Unrecognised;
use crate::layout::{FinalizeError, FinalizeErrorView, OutputTaken};
use crate::mojo::{MojoError, MojoErrorView};
use crate::numbers::{decimal, decimal_text};
use crate::pkg_error::{PkgError, PkgErrorView};
use crate::text::{chars_of, trim, trimmed};
use crate::utf8::{lossy_text, utf8_lossy};

verus! {

/// `text` in double quotes, with what cannot be printed escaped.
pub uninterp spec fn quoted(text: Seq<char>) -> Seq<char>;

/// The `Debug` form of a `str`, named [`quoted`].
#[verifier::external_body]
pub(crate) fn quote(text: &str) -> (out: String)
    ensures
        out@ == quoted(text@),
{
    format!("{text:?}")
}

/// `a`, `b` and `c` in one.
fn three(a: &str, b: &str, c: &str) -> (out: String)
    ensures
        out@ == a@ + b@ + c@,
{
    let mut out = a.to_owned();
    out.append(b);
    out.append(c);
    out
}

// ---------------------------------------------------------------------------
// cpio archives
// ---------------------------------------------------------------------------

/// What a field of an `odc` header is called.
pub open spec fn field_label(field: OdcField) -> Seq<char> {
    match field {
        OdcField::Dev => "dev"@,
        OdcField::Ino => "ino"@,
        OdcField::Mode => "mode"@,
        OdcField::Uid => "uid"@,
        OdcField::Gid => "gid"@,
        OdcField::Nlink => "nlink"@,
        OdcField::Rdev => "rdev"@,
        OdcField::Mtime => "mtime"@,
        OdcField::NameSize => "namesize"@,
        OdcField::FileSize => "filesize"@,
    }
}

fn label(field: OdcField) -> (text: &'static str)
    ensures
        text@ == field_label(field),
{
    match field {
        OdcField::Dev => "dev",
        OdcField::Ino => "ino",
        OdcField::Mode => "mode",
        OdcField::Uid => "uid",
        OdcField::Gid => "gid",
        OdcField::Nlink => "nlink",
        OdcField::Rdev => "rdev",
        OdcField::Mtime => "mtime",
        OdcField::NameSize => "namesize",
        OdcField::FileSize => "filesize",
    }
}

/// Why bytes could not be had, in words.
pub open spec fn cut_short() -> Seq<char> {
    ": failed to fill whole buffer"@
}

/// Why `text`, which is short enough not to write too large a number, writes none.
pub open spec fn no_number(text: Seq<char>) -> Seq<char> {
    if text.len() == 0 {
        "cannot parse integer from empty string"@
    } else {
        "invalid digit found in string"@
    }
}

/// Why a cpio archive cannot be read, in words.
pub open spec fn cpio_words(error: CpioErrorView) -> Seq<char> {
    match error {
        CpioErrorView::TruncatedStream => "Truncated cpio stream (EOF mid-header)"@,
        CpioErrorView::UnsupportedVariant(magic) =>
        "Unsupported cpio variant (expected newc magic '070701' or odc magic '070707', got "@
            + quoted(lossy_text(magic)) + ")"@,
        CpioErrorView::TruncatedHeader => "Truncated cpio header"@ + cut_short(),
        CpioErrorView::HeaderNotText(cause) => "Non-ASCII cpio header field: "@ + cause,
        CpioErrorView::MalformedHeader =>
        "Malformed cpio header field: invalid digit found in string"@,
        CpioErrorView::TruncatedField(field) => "Truncated cpio header field '"@ + field_label(
            field,
        ) + "'"@ + cut_short(),
        CpioErrorView::FieldNotText(field, cause) => "Non-ASCII cpio header field '"@
            + field_label(field) + "': "@ + cause,
        CpioErrorView::MalformedField(field, text) => "Malformed cpio header field '"@
            + field_label(field) + "': "@ + quoted(text) + ": "@ + no_number(trimmed(text)),
        CpioErrorView::TruncatedName => "Truncated cpio name"@ + cut_short(),
        CpioErrorView::TruncatedBody => "Truncated cpio body"@ + cut_short(),
        CpioErrorView::TruncatedPadding => "Truncated cpio padding"@ + cut_short(),
    }
}

/// `text`, with the reason that bytes could not be had.
fn cut(text: &str) -> (out: String)
    ensures
        out@ == text@ + cut_short(),
{
    let mut out = text.to_owned();
    out.append(": failed to fill whole buffer");
    out
}

/// Why a cpio archive cannot be read, in words.
pub fn cpio_message(error: &CpioError) -> (text: String)
    ensures
        text@ == cpio_words(error@),
{
    match error {
        CpioError::TruncatedStream => "Truncated cpio stream (EOF mid-header)".to_owned(),
        CpioError::UnsupportedVariant(magic) => three(
            "Unsupported cpio variant (expected newc magic '070701' or odc magic '070707', got ",
            quote(utf8_lossy(magic.as_slice()).as_str()).as_str(),
            ")",
        ),
        CpioError::TruncatedHeader => cut("Truncated cpio header"),
        CpioError::HeaderNotText(cause) => {
            let mut text = "Non-ASCII cpio header field: ".to_owned();
            text.append(cause.as_str());
            text
        },
        CpioError::MalformedHeader =>
        "Malformed cpio header field: invalid digit found in string".to_owned(),
        CpioError::TruncatedField(field) => cut(
            three("Truncated cpio header field '", label(*field), "'").as_str(),
        ),
        CpioError::FieldNotText(field, cause) => {
            let mut text = three("Non-ASCII cpio header field '", label(*field), "': ");
            text.append(cause.as_str());
            text
        },
        CpioError::MalformedField(field, given) => {
            let mut text = three("Malformed cpio header field '", label(*field), "': ");
            text.append(quote(given.as_str()).as_str());
            text.append(": ");
            let chars = chars_of(given.as_str());
            if trim(chars.as_slice()).len() == 0 {
                text.append("cannot parse integer from empty string");
            } else {
                text.append("invalid digit found in string");
            }
            text
        },
        CpioError::TruncatedName => cut("Truncated cpio name"),
        CpioError::TruncatedBody => cut("Truncated cpio body"),
        CpioError::TruncatedPadding => cut("Truncated cpio padding"),
    }
}

// ---------------------------------------------------------------------------
// Packages
// ---------------------------------------------------------------------------

/// Why a package cannot be read, in words.
pub open spec fn pkg_words(error: PkgErrorView) -> Seq<char> {
    match error {
        PkgErrorView::NotXar => "Not a XAR archive (missing 'xar!' magic)"@,
        PkgErrorView::HeaderTooSmall(size) => "XAR header_size field ("@ + decimal(size as nat)
            + ") is smaller than the minimum 28 bytes"@,
        PkgErrorView::TocTruncated => "XAR file is truncated: TOC extends past end of file"@,
        PkgErrorView::TocUnreadable(cause) => "Failed to inflate XAR table of contents: "@ + cause,
        PkgErrorView::TocMalformed(cause) => "Malformed XAR TOC XML: "@ + cause,
        PkgErrorView::NothingToExtract =>
        "No Payload or Scripts entries found in this .pkg (nothing to extract)"@,
        PkgErrorView::PastEnd { path, start, end, len } => "Payload entry '"@ + path
            + "' extends past end of file (heap range "@ + decimal(start as nat) + ".."@ + decimal(
            end as nat,
        ) + ", file len "@ + decimal(len as nat) + ")"@,
        PkgErrorView::BlobGunzip { path, cause } => "Failed to gunzip XAR heap blob '"@ + path
            + "': "@ + cause,
        PkgErrorView::BlobInflate { path, cause } => "Failed to inflate XAR heap blob '"@ + path
            + "': "@ + cause,
        PkgErrorView::UnsupportedEncoding { path } => "Payload entry '"@ + path
            + "' uses an unsupported XAR heap encoding"@,
        PkgErrorView::ArchiveGunzip { path, cause } => "Failed to gunzip cpio stream '"@ + path
            + "': "@ + cause,
        PkgErrorView::Archive(e) => cpio_words(e),
    }
}

/// Why a package cannot be read, in words.
pub fn pkg_message(error: &PkgError) -> (text: String)
    ensures
        text@ == pkg_words(error@),
{
    match error {
        PkgError::NotXar => "Not a XAR archive (missing 'xar!' magic)".to_owned(),
        PkgError::HeaderTooSmall(size) => three(
            "XAR header_size field (",
            decimal_text(*size as u128).as_str(),
            ") is smaller than the minimum 28 bytes",
        ),
        PkgError::TocTruncated =>
        "XAR file is truncated: TOC extends past end of file".to_owned(),
        PkgError::TocUnreadable(cause) => {
            let mut text = "Failed to inflate XAR table of contents: ".to_owned();
            text.append(cause.as_str());
            text
        },
        PkgError::TocMalformed(cause) => {
            let mut text = "Malformed XAR TOC XML: ".to_owned();
            text.append(cause.as_str());
            text
        },
        PkgError::NothingToExtract =>
        "No Payload or Scripts entries found in this .pkg (nothing to extract)".to_owned(),
        PkgError::PastEnd { path, start, end, len } => {
            let mut text = three(
                "Payload entry '",
                path.as_str(),
                "' extends past end of file (heap range ",
            );
            text.append(decimal_text(*start).as_str());
            text.append("..");
            text.append(decimal_text(*end).as_str());
            text.append(", file len ");
            text.append(decimal_text(*len as u128).as_str());
            text.append(")");
            text
        },
        PkgError::BlobGunzip { path, cause } => {
            let mut text = three("Failed to gunzip XAR heap blob '", path.as_str(), "': ");
            text.append(cause.as_str());
            text
        },
        PkgError::BlobInflate { path, cause } => {
            let mut text = three("Failed to inflate XAR heap blob '", path.as_str(), "': ");
            text.append(cause.as_str());
            text
        },
        PkgError::UnsupportedEncoding { path } => three(
            "Payload entry '",
            path.as_str(),
            "' uses an unsupported XAR heap encoding",
        ),
        PkgError::ArchiveGunzip { path, cause } => {
            let mut text = three("Failed to gunzip cpio stream '", path.as_str(), "': ");
            text.append(cause.as_str());
            text
        },
        PkgError::Archive(e) => cpio_message(e),
    }
}

/// The warning that the files of `component` come from its `Scripts`.
pub fn scripts_warning(component: &str) -> (text: String)
    ensures
        text@ == "'"@ + component@
            + "' has no Payload — extracting files from Scripts instead (non-standard .pkg; verify output looks correct)"@,
{
    three(
        "'",
        component,
        "' has no Payload — extracting files from Scripts instead (non-standard .pkg; verify output looks correct)",
    )
}

/// The warning that an entry of a cpio archive is passed over.
pub fn unsafe_cpio_warning(name: &str) -> (text: String)
    ensures
        text@ == "Skipping unsafe path in cpio: "@ + quoted(name@),
{
    let mut text = "Skipping unsafe path in cpio: ".to_owned();
    text.append(quote(name).as_str());
    text
}

// ---------------------------------------------------------------------------
// ZIP archives
// ---------------------------------------------------------------------------

/// Why a ZIP archive cannot be read, in words.
pub open spec fn mojo_words(error: MojoErrorView) -> Seq<char> {
    match error {
        MojoErrorView::Open(cause) => "Failed to open ZIP archive: "@ + cause,
        MojoErrorView::Worker(cause) =>
        "ZIP archive init failed for worker: Failed to open ZIP archive for worker: "@ + cause,
        MojoErrorView::Entry { index, cause } => "Failed to read ZIP entry #"@ + decimal(
            index as nat,
        ) + ": "@ + cause,
        MojoErrorView::Unpack { name, cause } => "Failed to write "@ + name + ": "@ + cause,
    }
}

/// Why a ZIP archive cannot be read, in words.
pub fn mojo_message(error: &MojoError) -> (text: String)
    ensures
        text@ == mojo_words(error@),
{
    match error {
        MojoError::Open(cause) => {
            let mut text = "Failed to open ZIP archive: ".to_owned();
            text.append(cause.as_str());
            text
        },
        MojoError::Worker(cause) => {
            let mut text =
                "ZIP archive init failed for worker: Failed to open ZIP archive for worker: ".to_owned();
            text.append(cause.as_str());
            text
        },
        MojoError::Entry { index, cause } => {
            let mut text = three(
                "Failed to read ZIP entry #",
                decimal_text(*index as u128).as_str(),
                ": ",
            );
            text.append(cause.as_str());
            text
        },
        MojoError::Unpack { name, cause } => {
            let mut text = three("Failed to write ", name.as_str(), ": ");
            text.append(cause.as_str());
            text
        },
    }
}

/// The warning that an entry of a ZIP archive is passed over.
pub fn unsafe_zip_warning(name: &str) -> (text: String)
    ensures
        text@ == "Skipping unsafe path in ZIP: "@ + quoted(name@),
{
    let mut text = "Skipping unsafe path in ZIP: ".to_owned();
    text.append(quote(name).as_str());
    text
}

// ---------------------------------------------------------------------------
// Installers and output
// ---------------------------------------------------------------------------

/// What is said of a file whose kind cannot be told.
pub fn unrecognised_message(_error: Unrecognised) -> (text: String)
    ensures
        text@
            == "Unrecognised installer format — expected a MojoSetup installer (.sh/.exe) or an Inno Setup executable."@,
{
    "Unrecognised installer format — expected a MojoSetup installer (.sh/.exe) or an Inno Setup executable.".to_owned()
}

/// What is said where the output path is taken.
pub fn output_taken_message(error: &OutputTaken) -> (text: String)
    ensures
        text@ == "Output path already exists: "@ + lossy_text(error.path@)
            + ". Use --force to overwrite."@,
{
    three(
        "Output path already exists: ",
        utf8_lossy(error.path.as_slice()).as_str(),
        ". Use --force to overwrite.",
    )
}

/// Why the output at `output`, whose previous state is kept at `backup`, is not in place.
pub open spec fn finalize_words(
    error: FinalizeErrorView,
    output: Seq<u8>,
    backup: Seq<u8>,
) -> Seq<char> {
    match error {
        FinalizeErrorView::MoveAside(cause) => "Failed to move existing "@ + lossy_text(output)
            + " out of the way: "@ + cause,
        FinalizeErrorView::MoveIntoPlace(cause) =>
        "Failed to move staging directory into place as "@ + lossy_text(output) + ": "@ + cause,
        FinalizeErrorView::Restore { cause, rename_cause } =>
        "Failed to restore previous output "@ + lossy_text(output)
            + " after replacement failed (original rename error: "@ + rename_cause + "): "@ + cause,
        FinalizeErrorView::RemoveBackup(cause) => "Failed to remove previous output backup "@
            + lossy_text(backup) + ": "@ + cause,
    }
}

/// Why the output at `output`, whose previous state is kept at `backup`, is not in place.
pub fn finalize_message(error: &FinalizeError, output: &[u8], backup: &[u8]) -> (text: String)
    ensures
        text@ == finalize_words(error@, output@, backup@),
{
    match error {
        FinalizeError::MoveAside(cause) => {
            let mut text = three(
                "Failed to move existing ",
                utf8_lossy(output).as_str(),
                " out of the way: ",
            );
            text.append(cause.as_str());
            text
        },
        FinalizeError::MoveIntoPlace(cause) => {
            let mut text = three(
                "Failed to move staging directory into place as ",
                utf8_lossy(output).as_str(),
                ": ",
            );
            text.append(cause.as_str());
            text
        },
        FinalizeError::Restore { cause, rename_cause } => {
            let mut text = three(
                "Failed to restore previous output ",
                utf8_lossy(output).as_str(),
                " after replacement failed (original rename error: ",
            );
            text.append(rename_cause.as_str());
            text.append("): ");
            text.append(cause.as_str());
            text
        },
        FinalizeError::RemoveBackup(cause) => {
            let mut text = three(
                "Failed to remove previous output backup ",
                utf8_lossy(backup).as_str(),
                ": ",
            );
            text.append(cause.as_str());
            text
        },
    }
}

} // verus!
