//! Which kind of installer a file is.

use vstd::prelude::*;
use vstd::slice::slice_subrange;
use vstd::utf8::encode_utf8;

use crate::text::{begins_with, bytes_at, contains_bytes, contains_run};

verus! {

/// The kinds of installer.
#[derive(Debug, Clone, Copy, PartialEq, Eq, Structural)]
pub enum InstallerKind {
    Inno,
    MojoSetup,
    Pkg,
}

/// The file is of no kind that can be told.
#[derive(Debug, Clone, Copy, PartialEq, Eq, Structural)]
pub struct Unrecognised;

/// How far an Inno Setup signature is looked for.
pub const SCAN_LIMIT: usize = 8388608;

/// How far from the end of a file the end record of a ZIP archive can start.
pub const MAX_EOCD_SEARCH: usize = 65557;

/// What stands at the start of the data of an Inno Setup installer.
pub open spec fn inno_magic() -> Seq<u8> {
    encode_utf8("Inno Setup Setup Data"@)
}

/// What a ZIP archive starts with.
pub open spec fn zip_magic() -> Seq<u8> {
    seq![0x50u8, 0x4b, 0x03, 0x04]
}

/// What the end record of a ZIP archive starts with.
pub open spec fn eocd_magic() -> Seq<u8> {
    seq![0x50u8, 0x4b, 0x05, 0x06]
}

/// The first `n` bytes of `data`, or all where there are fewer.
pub open spec fn head(data: Seq<u8>, n: int) -> Seq<u8> {
    if data.len() <= n {
        data
    } else {
        data.take(n)
    }
}

/// The last `n` bytes of `data`, or all where there are fewer.
pub open spec fn tail(data: Seq<u8>, n: int) -> Seq<u8> {
    if data.len() <= n {
        data
    } else {
        data.skip(data.len() - n)
    }
}

/// The kind of installer that `data` is. An Inno Setup signature near the start comes first; a
/// ZIP archive is told by its first bytes, or by the end record that a script before the archive
/// leaves in place.
pub open spec fn kind_of_file(data: Seq<u8>) -> Option<InstallerKind> {
    if contains_run(head(data, SCAN_LIMIT as int), inno_magic()) {
        Some(InstallerKind::Inno)
    } else if begins_with(data, zip_magic()) || contains_run(
        tail(data, MAX_EOCD_SEARCH as int),
        eocd_magic(),
    ) {
        Some(InstallerKind::MojoSetup)
    } else {
        None
    }
}

/// Tells the kind of installer that `data` is.
pub fn detect_installer_kind(data: &[u8]) -> (kind: Result<InstallerKind, Unrecognised>)
    ensures
        match kind {
            Ok(k) => kind_of_file(data@) == Some(k),
            Err(_) => kind_of_file(data@) is None,
        },
{
    let len: usize = data.len();
    let scan_end: usize = if len < SCAN_LIMIT {
        len
    } else {
        SCAN_LIMIT
    };
    let first = slice_subrange(data, 0, scan_end);
    assert(first@ =~= head(data@, SCAN_LIMIT as int));
    if contains_bytes(first, "Inno Setup Setup Data".as_bytes()) {
        return Ok(InstallerKind::Inno);
    }
    let start: usize = if len > MAX_EOCD_SEARCH {
        len - MAX_EOCD_SEARCH
    } else {
        0
    };
    let last = slice_subrange(data, start, len);
    assert(last@ =~= tail(data@, MAX_EOCD_SEARCH as int));
    let zip: [u8; 4] = [0x50, 0x4b, 0x03, 0x04];
    let eocd: [u8; 4] = [0x50, 0x4b, 0x05, 0x06];
    assert(zip@ =~= zip_magic());
    assert(eocd@ =~= eocd_magic());
    if bytes_at(data, zip.as_slice(), 0) || contains_bytes(last, eocd.as_slice()) {
        return Ok(InstallerKind::MojoSetup);
    }
    Err(Unrecognised)
}

/// What a kind of installer is called.
pub open spec fn label_of(kind: Option<InstallerKind>) -> Seq<char> {
    match kind {
        Some(InstallerKind::MojoSetup) => "MojoSetup"@,
        Some(InstallerKind::Inno) => "Inno Setup"@,
        Some(InstallerKind::Pkg) => "pkg"@,
        None => "Unknown"@,
    }
}

/// What a kind of installer is called.
pub fn kind_label(kind: Option<InstallerKind>) -> (label: &'static str)
    ensures
        label@ == label_of(kind),
{
    match kind {
        Some(InstallerKind::MojoSetup) => "MojoSetup",
        Some(InstallerKind::Inno) => "Inno Setup",
        Some(InstallerKind::Pkg) => "pkg",
        None => "Unknown",
    }
}

} // verus!
