//! ZIP archives, as the `zip` crate reads them.

use std::io::Read;

use vstd::prelude::*;

use anyhow::Error;

use crate::safe_path::slashed;
use crate::split::split_on;

verus! {

/// When an entry was last modified.
#[derive(Debug, Clone, Copy, PartialEq, Eq, Structural)]
pub struct ZipTime {
    pub year: u16,
    pub month: u8,
    pub day: u8,
    pub hour: u8,
    pub minute: u8,
    pub second: u8,
}

/// What matters of an entry.
#[derive(Debug)]
pub struct ZipEntryInfo {
    pub name: String,
    /// Size of the file once it is unpacked.
    pub size: u64,
    pub modified: Option<ZipTime>,
    pub unix_mode: Option<u32>,
    pub is_dir: bool,
    /// The path to write to, where the name is safe to use as one.
    pub enclosed: Option<String>,
}

/// What an archive says of an entry.
#[verifier::ext_equal]
pub ghost struct ZipMeta {
    pub name: Seq<char>,
    pub size: u64,
    pub modified: Option<ZipTime>,
    pub unix_mode: Option<u32>,
}

impl View for ZipEntryInfo {
    type V = ZipMeta;

    open spec fn view(&self) -> ZipMeta {
        ZipMeta {
            name: self.name@,
            size: self.size,
            modified: self.modified,
            unix_mode: self.unix_mode,
        }
    }
}

// ---------------------------------------------------------------------------
// Names of entries
// ---------------------------------------------------------------------------

/// An entry called `name` is a directory: the name ends in a slash of either kind.
pub open spec fn names_directory(name: Seq<char>) -> bool {
    name.len() > 0 && (name.last() == '/' || name.last() == '\\')
}

/// How many levels below its start the parts `parts` lead, from `depth` on; none where they lead
/// above it on their way.
pub open spec fn depth_after(parts: Seq<Seq<char>>, depth: nat) -> Option<nat>
    decreases parts.len(),
{
    if parts.len() == 0 {
        Some(depth)
    } else if parts[0] == ".."@ {
        if depth == 0 {
            None
        } else {
            depth_after(parts.drop_first(), (depth - 1) as nat)
        }
    } else if parts[0] == ""@ || parts[0] == "."@ {
        depth_after(parts.drop_first(), depth)
    } else {
        depth_after(parts.drop_first(), depth + 1)
    }
}

/// `name`, with slashes between its parts, never leads above the directory it starts from.
pub open spec fn never_climbs_out(name: Seq<char>) -> bool {
    &&& !name.contains('\0')
    &&& !(name.len() > 0 && name[0] == '/')
    &&& depth_after(split_on(name, '/'), 0) is Some
}

/// `name` starts with a drive on a system that has drives, if its first character is a letter.
pub open spec fn may_name_drive(name: Seq<char>) -> bool {
    name.len() > 1 && name[1] == ':'
}

/// `name` on a system on which a backslash separates parts as a slash does.
pub open spec fn with_slashes(name: Seq<char>) -> Seq<char> {
    slashed(name, true)
}

/// `name` has the same parts on every system: it holds no backslash, and no colon behind its
/// first character.
pub open spec fn is_portable(name: Seq<char>) -> bool {
    !name.contains('\\') && !may_name_drive(name)
}

/// `name` stays below the directory it starts from on every system.
pub open spec fn is_safe_everywhere(name: Seq<char>) -> bool {
    !may_name_drive(name) && never_climbs_out(name) && never_climbs_out(with_slashes(name))
}

/// `name` leads out of the directory it starts from on every system.
pub open spec fn is_unsafe_everywhere(name: Seq<char>) -> bool {
    !never_climbs_out(name) && !never_climbs_out(with_slashes(name))
}

/// Where the parts of `name` are the same on every system, it is safe on all of them or on none.
pub proof fn lemma_portable(name: Seq<char>)
    requires
        is_portable(name),
    ensures
        with_slashes(name) == name,
        is_safe_everywhere(name) == never_climbs_out(name),
        is_unsafe_everywhere(name) == !never_climbs_out(name),
{
    assert forall|i: int| 0 <= i < name.len() implies with_slashes(name)[i] == name[i] by {
        assert(name.contains(name[i]));
    }
    assert(with_slashes(name) =~= name);
}

/// What the accessors of an entry say of the fields that its content leaves out.
pub open spec fn info_is_sound(info: ZipEntryInfo) -> bool {
    &&& info.is_dir == names_directory(info.name@)
    &&& info.enclosed matches Some(path) ==> path@ == info.name@ && !path@.contains('\0') && !(
    path@.len() > 0 && path@[0] == '/')
    &&& is_safe_everywhere(info.name@) ==> info.enclosed is Some
    &&& is_unsafe_everywhere(info.name@) ==> info.enclosed is None
}

// ---------------------------------------------------------------------------
// The archive
// ---------------------------------------------------------------------------

/// A `zip::ZipArchive`.
#[verifier::external_type_specification]
#[verifier::external_body]
#[verifier::reject_recursive_types(R)]
pub struct ExZipArchive<R>(zip::ZipArchive<R>);

/// A `std::io::Cursor`.
#[verifier::external_type_specification]
#[verifier::external_body]
#[verifier::reject_recursive_types(T)]
pub struct ExCursor<T>(std::io::Cursor<T>);

/// An entry that is being read: a `zip::read::ZipFile`.
#[verifier::external_body]
pub struct OpenEntry<'w, 'd> {
    file: zip::read::ZipFile<'w, std::io::Cursor<&'d [u8]>>,
}

/// The bytes that an archive is read from.
pub uninterp spec fn archive_bytes(archive: zip::ZipArchive<std::io::Cursor<&[u8]>>) -> Seq<u8>;

/// The message of the error with which `data` is refused as an archive, if it is.
pub uninterp spec fn open_error(data: Seq<u8>) -> Option<Seq<char>>;

/// How many entries the archive `data` has.
pub uninterp spec fn entry_total(data: Seq<u8>) -> nat;

/// What the archive `data` says of the entry at `index`, or the message of the error where that
/// entry cannot be read.
pub uninterp spec fn entry_found(data: Seq<u8>, index: nat) -> Result<ZipMeta, Seq<char>>;

/// What the entry at `index` of the archive `data` unpacks to, or the message of the error that
/// reading it comes to.
pub uninterp spec fn entry_content(data: Seq<u8>, index: nat) -> Result<Seq<u8>, Seq<char>>;

/// What the archive says of an open entry.
pub uninterp spec fn open_meta(entry: OpenEntry<'_, '_>) -> ZipMeta;

/// The bytes that an open entry has still to give, or the message of the error that reading them
/// comes to.
pub uninterp spec fn unread(entry: OpenEntry<'_, '_>) -> Result<Seq<u8>, Seq<char>>;

/// Where `before` was still to be read, `bytes` came, and `after` is still to be read. None come
/// only where none are left.
pub open spec fn chunk_taken(
    before: Result<Seq<u8>, Seq<char>>,
    bytes: Seq<u8>,
    after: Result<Seq<u8>, Seq<char>>,
) -> bool {
    match before {
        Ok(left) => {
            &&& after matches Ok(rest) && left == bytes + rest
            &&& bytes.len() == 0 ==> left.len() == 0
        },
        Err(_) => bytes.len() > 0 && after == before,
    }
}

/// The name of the entry at `index` in the archive `data`, where its packed bytes can be found.
pub uninterp spec fn raw_entry_name(data: Seq<u8>, index: nat) -> Option<Seq<char>>;

/// `zip::ZipArchive::new`: reads the directory of the archive `data`. Whether it is refused, and
/// why, with the causes as `anyhow::Error` writes them out, is named [`open_error`]; the archive
/// reads from the bytes it was given.
#[verifier::external_body]
pub(crate) fn open_archive<'a>(data: &'a [u8]) -> (opened: Result<
    zip::ZipArchive<std::io::Cursor<&'a [u8]>>,
    String,
>)
    ensures
        match opened {
            Ok(archive) => open_error(data@) is None && archive_bytes(archive) == data@,
            Err(message) => open_error(data@) == Some(message@),
        },
{
    zip::ZipArchive::new(std::io::Cursor::new(data)).map_err(|e| format!("{:#}", Error::new(e)))
}

/// `zip::ZipArchive::len`: the number of entries, named [`entry_total`].
#[verifier::external_body]
pub(crate) fn archive_len(archive: &zip::ZipArchive<std::io::Cursor<&[u8]>>) -> (total: usize)
    ensures
        total as nat == entry_total(archive_bytes(*archive)),
{
    archive.len()
}

/// `zip::ZipArchive::by_index`: opens the entry at `index`. What the archive says of the entry, or
/// why the entry cannot be opened, with the causes as `anyhow::Error` writes them out, is named
/// [`entry_found`]. What the entry unpacks to, as far as it can be opened, is named
/// [`entry_content`]. The archive reads from the same bytes as before.
#[verifier::external_body]
pub(crate) fn open_entry<'w, 'd>(
    archive: &'w mut zip::ZipArchive<std::io::Cursor<&'d [u8]>>,
    index: usize,
) -> (opened: Result<OpenEntry<'w, 'd>, String>)
    ensures
        archive_bytes(*final(archive)) == archive_bytes(*old(archive)),
        match opened {
            Ok(entry) => {
                &&& entry_found(archive_bytes(*old(archive)), index as nat) == Ok::<
                    ZipMeta,
                    Seq<char>,
                >(open_meta(entry))
                &&& unread(entry) == entry_content(archive_bytes(*old(archive)), index as nat)
            },
            Err(message) => entry_found(archive_bytes(*old(archive)), index as nat) == Err::<
                ZipMeta,
                Seq<char>,
            >(message@),
        },
{
    match archive.by_index(index) {
        Ok(file) => Ok(OpenEntry { file }),
        Err(e) => Err(format!("{:#}", Error::new(e))),
    }
}

/// `name`, `size`, `last_modified`, `unix_mode`, `is_dir` and `enclosed_name` of a
/// `zip::read::ZipFile`. What they say of the entry is named [`open_meta`]. A directory is told by
/// its name. A name is enclosed only as it stands, and only if it holds no NUL and does not start
/// with a slash. It is enclosed where it stays below the directory that it starts from, whether
/// backslashes separate its parts or not, and cannot start with a drive; it is not where it leads
/// out either way. What other names are depends on the system, and is left unsaid.
#[verifier::external_body]
pub(crate) fn info_of(entry: &OpenEntry<'_, '_>) -> (info: ZipEntryInfo)
    ensures
        info@ == open_meta(*entry),
        info_is_sound(info),
{
    ZipEntryInfo {
        name: entry.file.name().to_owned(),
        size: entry.file.size(),
        modified: entry.file.last_modified().map(|t| ZipTime {
            year: t.year(), month: t.month(), day: t.day(),
            hour: t.hour(), minute: t.minute(), second: t.second(),
        }),
        unix_mode: entry.file.unix_mode(),
        is_dir: entry.file.is_dir(),
        enclosed: entry.file.enclosed_name().map(|p| p.to_string_lossy().into_owned()),
    }
}

/// `read` of a `zip::read::ZipFile`, with room for `limit` bytes: the next bytes of the entry, at
/// most `limit`, and none only at its end. The bytes of an entry that cannot be unpacked to its end
/// are left unsaid, as is how many of them come before the error; the error has the message that
/// [`unread`] tells of.
#[verifier::external_body]
pub(crate) fn next_chunk(entry: &mut OpenEntry<'_, '_>, limit: usize) -> (chunk: Result<
    Vec<u8>,
    String,
>)
    requires
        0 < limit <= isize::MAX,
    ensures
        open_meta(*final(entry)) == open_meta(*old(entry)),
        match chunk {
            Ok(bytes) => bytes@.len() <= limit && chunk_taken(
                unread(*old(entry)),
                bytes@,
                unread(*final(entry)),
            ),
            Err(message) => unread(*old(entry)) == Err::<Seq<u8>, Seq<char>>(message@),
        },
{
    let mut bytes = vec![0u8; limit];
    match entry.file.read(&mut bytes) {
        Ok(n) => {
            bytes.truncate(n);
            Ok(bytes)
        },
        Err(e) => Err(e.to_string()),
    }
}

/// What the archive says of the entry at `index`.
pub(crate) fn entry_at(
    archive: &mut zip::ZipArchive<std::io::Cursor<&[u8]>>,
    index: usize,
) -> (found: Result<ZipEntryInfo, String>)
    ensures
        archive_bytes(*final(archive)) == archive_bytes(*old(archive)),
        match found {
            Ok(info) => entry_found(archive_bytes(*old(archive)), index as nat) == Ok::<
                ZipMeta,
                Seq<char>,
            >(info@) && info_is_sound(info),
            Err(message) => entry_found(archive_bytes(*old(archive)), index as nat) == Err::<
                ZipMeta,
                Seq<char>,
            >(message@),
        },
{
    match open_entry(archive, index) {
        Ok(entry) => Ok(info_of(&entry)),
        Err(message) => Err(message),
    }
}

/// `zip::ZipArchive::by_index_raw`, and `is_dir` of the file it gives. The name of the entry,
/// where there is one to give, is named [`raw_entry_name`]. An entry that can be read at all is
/// found this way under the same name. The archive reads from the same bytes as before.
#[verifier::external_body]
pub(crate) fn raw_entry_at(
    archive: &mut zip::ZipArchive<std::io::Cursor<&[u8]>>,
    index: usize,
) -> (is_dir: Option<bool>)
    ensures
        archive_bytes(*final(archive)) == archive_bytes(*old(archive)),
        match is_dir {
            Some(dir) => raw_entry_name(archive_bytes(*old(archive)), index as nat) matches Some(
                name,
            ) && dir == names_directory(name),
            None => raw_entry_name(archive_bytes(*old(archive)), index as nat) is None,
        },
        entry_found(archive_bytes(*old(archive)), index as nat) matches Ok(meta) ==> is_dir == Some(
            names_directory(meta.name),
        ),
{
    archive.by_index_raw(index).ok().map(|file| file.is_dir())
}

} // verus!
