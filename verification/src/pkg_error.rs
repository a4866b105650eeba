//! Why a macOS package cannot be read.

use vstd::prelude::*;

use crate::cpio::{CpioError, CpioErrorView};

verus! {

/// Why a package cannot be read.
#[derive(Debug)]
pub enum PkgError {
    /// The file is no XAR archive.
    NotXar,
    /// The header gives itself a size, given here, below its fixed part.
    HeaderTooSmall(u16),
    /// The table of contents goes past the end of the file.
    TocTruncated,
    /// The table of contents cannot be unpacked to text, for the reason given.
    TocUnreadable(String),
    /// The table of contents is malformed XML, for the reason given.
    TocMalformed(String),
    /// The table of contents names nothing to extract.
    NothingToExtract,
    /// The bytes of an entry go past the end of the file.
    PastEnd { path: String, start: u128, end: u128, len: u64 },
    /// The bytes of an entry are no gzip stream, for the reason given.
    BlobGunzip { path: String, cause: String },
    /// The bytes of an entry are no zlib stream, for the reason given.
    BlobInflate { path: String, cause: String },
    /// The bytes of an entry are packed in a way that is not supported.
    UnsupportedEncoding { path: String },
    /// The archive in an entry is no gzip stream, though it begins like one.
    ArchiveGunzip { path: String, cause: String },
    /// The archive in an entry is malformed.
    Archive(CpioError),
}

/// What an error holds.
pub ghost enum PkgErrorView {
    NotXar,
    HeaderTooSmall(u16),
    TocTruncated,
    TocUnreadable(Seq<char>),
    TocMalformed(Seq<char>),
    NothingToExtract,
    PastEnd { path: Seq<char>, start: int, end: int, len: int },
    BlobGunzip { path: Seq<char>, cause: Seq<char> },
    BlobInflate { path: Seq<char>, cause: Seq<char> },
    UnsupportedEncoding { path: Seq<char> },
    ArchiveGunzip { path: Seq<char>, cause: Seq<char> },
    Archive(CpioErrorView),
}

impl View for PkgError {
    type V = PkgErrorView;

    open spec fn view(&self) -> PkgErrorView {
        match self {
            PkgError::NotXar => PkgErrorView::NotXar,
            PkgError::HeaderTooSmall(size) => PkgErrorView::HeaderTooSmall(*size),
            PkgError::TocTruncated => PkgErrorView::TocTruncated,
            PkgError::TocUnreadable(cause) => PkgErrorView::TocUnreadable(cause@),
            PkgError::TocMalformed(cause) => PkgErrorView::TocMalformed(cause@),
            PkgError::NothingToExtract => PkgErrorView::NothingToExtract,
            PkgError::PastEnd { path, start, end, len } => PkgErrorView::PastEnd {
                path: path@,
                start: *start as int,
                end: *end as int,
                len: *len as int,
            },
            PkgError::BlobGunzip { path, cause } => PkgErrorView::BlobGunzip {
                path: path@,
                cause: cause@,
            },
            PkgError::BlobInflate { path, cause } => PkgErrorView::BlobInflate {
                path: path@,
                cause: cause@,
            },
            PkgError::UnsupportedEncoding { path } => PkgErrorView::UnsupportedEncoding {
                path: path@,
            },
            PkgError::ArchiveGunzip { path, cause } => PkgErrorView::ArchiveGunzip {
                path: path@,
                cause: cause@,
            },
            PkgError::Archive(e) => PkgErrorView::Archive(e@),
        }
    }
}

} // verus!
