//! MojoSetup installers: a ZIP archive behind a script.

use vstd::prelude::*;
use vstd::utf8::{decode_utf8, encode_utf8, valid_utf8};

use crate::numbers::{counted, decimal, decimal_text, lemma_counted, number_padded_end};
use crate::numbers::{number_padded_start, padded_end, padded_start, run_of, run_text};
use crate::paths::{file_name, file_name_of};
use crate::run_control::Cancelled;
use crate::text::texts;
use crate::utf8::utf8_text;
use crate::unpack::{unpacking_of, EntryUnpacking};
use crate::zip_archive::{archive_bytes, archive_len, entry_at, entry_content, entry_found};
use crate::zip_archive::{entry_total, info_is_sound, is_safe_everywhere, is_unsafe_everywhere};
use crate::zip_archive::{names_directory, open_archive, open_entry, open_error, raw_entry_at};
use crate::zip_archive::{raw_entry_name, ZipEntryInfo, ZipMeta, ZipTime};

verus! {

/// Why an archive cannot be read.
#[derive(Debug)]
pub enum MojoError {
    /// The archive cannot be opened.
    Open(String),
    /// The archive cannot be opened by a worker.
    Worker(String),
    /// An entry cannot be read.
    Entry { index: usize, cause: String },
    /// An entry cannot be unpacked, or its unpacking was stopped.
    Unpack { name: String, cause: String },
}

/// What an error holds.
pub ghost enum MojoErrorView {
    Open(Seq<char>),
    Worker(Seq<char>),
    Entry { index: int, cause: Seq<char> },
    Unpack { name: Seq<char>, cause: Seq<char> },
}

impl View for MojoError {
    type V = MojoErrorView;

    open spec fn view(&self) -> MojoErrorView {
        match self {
            MojoError::Open(cause) => MojoErrorView::Open(cause@),
            MojoError::Worker(cause) => MojoErrorView::Worker(cause@),
            MojoError::Entry { index, cause } => MojoErrorView::Entry {
                index: *index as int,
                cause: cause@,
            },
            MojoError::Unpack { name, cause } => MojoErrorView::Unpack {
                name: name@,
                cause: cause@,
            },
        }
    }
}

// ---------------------------------------------------------------------------
// Listing
// ---------------------------------------------------------------------------

/// What the archive `data` says of the entries from `from` to `to`; the first that cannot be
/// read stops it.
pub open spec fn entries_between(data: Seq<u8>, from: nat, to: nat) -> Result<
    Seq<ZipMeta>,
    MojoErrorView,
>
    decreases to - from,
{
    if from >= to {
        Ok(Seq::empty())
    } else {
        match entry_found(data, from) {
            Err(cause) => Err(MojoErrorView::Entry { index: from as int, cause }),
            Ok(meta) => match entries_between(data, from + 1, to) {
                Err(e) => Err(e),
                Ok(rest) => Ok(seq![meta] + rest),
            },
        }
    }
}

/// What the archive `data` says of all its entries.
pub open spec fn archive_entries(data: Seq<u8>) -> Result<Seq<ZipMeta>, MojoErrorView> {
    match open_error(data) {
        Some(cause) => Err(MojoErrorView::Open(cause)),
        None => entries_between(data, 0, entry_total(data)),
    }
}

/// `n` with at least `width` digits.
pub open spec fn digits(n: int, width: int) -> Seq<char> {
    padded_start(decimal(n as nat), '0', width)
}

/// When an entry was modified, to the second.
pub open spec fn time_text(modified: Option<ZipTime>) -> Seq<char> {
    match modified {
        None => "unknown            "@,
        Some(t) => digits(t.year as int, 4) + "-"@ + digits(t.month as int, 2) + "-"@ + digits(
            t.day as int,
            2,
        ) + " "@ + digits(t.hour as int, 2) + ":"@ + digits(t.minute as int, 2) + ":"@ + digits(
            t.second as int,
            2,
        ),
    }
}

/// The line of an entry.
pub open spec fn entry_line(entry: ZipMeta) -> Seq<char> {
    padded_end(decimal(entry.size as nat), 10) + "  "@ + time_text(entry.modified) + "  "@
        + entry.name
}

/// How many of `entries` are files.
pub open spec fn files_in(entries: Seq<ZipMeta>) -> nat
    decreases entries.len(),
{
    if entries.len() == 0 {
        0
    } else if names_directory(entries.last().name) {
        files_in(entries.drop_last())
    } else {
        files_in(entries.drop_last()) + 1
    }
}

/// The size of the files among `entries` together.
pub open spec fn bytes_in(entries: Seq<ZipMeta>) -> nat
    decreases entries.len(),
{
    if entries.len() == 0 {
        0
    } else if names_directory(entries.last().name) {
        bytes_in(entries.drop_last())
    } else {
        bytes_in(entries.drop_last()) + entries.last().size as nat
    }
}

/// The line below the entries.
pub open spec fn summary_line(entries: Seq<ZipMeta>) -> Seq<char> {
    decimal(files_in(entries)) + " file(s), "@ + decimal(counted(bytes_in(entries) as int) as nat)
        + " bytes uncompressed"@
}

/// The lines of a listing of `entries`.
pub open spec fn listing_of(entries: Seq<ZipMeta>) -> Seq<Seq<char>> {
    seq!["Size        Modified             Name"@, run_of('-', 72)] + entries.map_values(
        |e: ZipMeta| entry_line(e),
    ) + seq![run_of('-', 72), summary_line(entries)]
}

/// What the archive says of each of `entries`.
pub open spec fn infos_view(entries: Seq<ZipEntryInfo>) -> Seq<ZipMeta> {
    entries.map_values(|e: ZipEntryInfo| e@)
}

/// When an entry was modified, as text.
pub fn modified_text(modified: Option<ZipTime>) -> (text: String)
    ensures
        text@ == time_text(modified),
{
    match modified {
        None => "unknown            ".to_owned(),
        Some(t) => {
            let mut text = number_padded_start(t.year as u64, '0', 4);
            text.append("-");
            text.append(number_padded_start(t.month as u64, '0', 2).as_str());
            text.append("-");
            text.append(number_padded_start(t.day as u64, '0', 2).as_str());
            text.append(" ");
            text.append(number_padded_start(t.hour as u64, '0', 2).as_str());
            text.append(":");
            text.append(number_padded_start(t.minute as u64, '0', 2).as_str());
            text.append(":");
            text.append(number_padded_start(t.second as u64, '0', 2).as_str());
            text
        },
    }
}

fn line_of(entry: &ZipEntryInfo) -> (line: String)
    ensures
        line@ == entry_line(entry@),
{
    let mut line = number_padded_end(entry.size, 10);
    line.append("  ");
    line.append(modified_text(entry.modified).as_str());
    line.append("  ");
    line.append(entry.name.as_str());
    line
}

/// The lines of a listing of `entries`.
pub fn listing_lines(entries: &Vec<ZipEntryInfo>) -> (lines: Vec<String>)
    requires
        forall|i: int|
            0 <= i < entries@.len() ==> #[trigger] entries@[i].is_dir == names_directory(
                entries@[i].name@,
            ),
    ensures
        texts(lines@) == listing_of(infos_view(entries@)),
{
    let ghost all = infos_view(entries@);
    let ghost line = |e: ZipMeta| entry_line(e);
    let ghost head = seq!["Size        Modified             Name"@, run_of('-', 72)];
    let mut lines: Vec<String> = Vec::new();
    lines.push("Size        Modified             Name".to_owned());
    lines.push(run_text('-', 72));
    let mut total_size: u64 = 0;
    let mut file_count: usize = 0;
    proof {
        reveal(counted);
        assert(texts(lines@) =~= head + all.take(0).map_values(line));
    }
    for i in 0..entries.len()
        invariant
            all == infos_view(entries@),
            line == (|e: ZipMeta| entry_line(e)),
            forall|i: int|
                0 <= i < entries@.len() ==> #[trigger] entries@[i].is_dir == names_directory(
                    entries@[i].name@,
                ),
            texts(lines@) == head + all.take(i as int).map_values(line),
            file_count == files_in(all.take(i as int)) <= i,
            total_size == counted(bytes_in(all.take(i as int)) as int),
    {
        let entry = &entries[i];
        let ghost before = texts(lines@);
        lines.push(line_of(entry));
        proof {
            assert(all.take(i + 1).drop_last() =~= all.take(i as int));
            assert(texts(lines@) =~= before.push(entry_line(entry@)));
            assert(texts(lines@) =~= head + all.take(i + 1).map_values(line));
            lemma_counted(bytes_in(all.take(i as int)) as int, entry.size);
        }
        if !entry.is_dir {
            total_size = total_size.wrapping_add(entry.size);
            file_count = file_count + 1;
        }
    }
    assert(all.take(all.len() as int) =~= all);
    let ghost before = texts(lines@);
    lines.push(run_text('-', 72));
    let mut last = decimal_text(file_count as u128);
    last.append(" file(s), ");
    last.append(decimal_text(total_size as u128).as_str());
    last.append(" bytes uncompressed");
    lines.push(last);
    assert(texts(lines@) =~= before + seq![run_of('-', 72), summary_line(all)]);
    lines
}

/// What an archive says of its entries, in order.
fn read_entries(archive: &mut zip::ZipArchive<std::io::Cursor<&[u8]>>) -> (entries: Result<
    Vec<ZipEntryInfo>,
    MojoError,
>)
    ensures
        ({
            let data = archive_bytes(*old(archive));
            match entries {
                Ok(entries) => {
                    &&& entries_between(data, 0, entry_total(data)) == Ok::<
                        Seq<ZipMeta>,
                        MojoErrorView,
                    >(infos_view(entries@))
                    &&& forall|i: int|
                        0 <= i < entries@.len() ==> info_is_sound(#[trigger] entries@[i])
                },
                Err(e) => entries_between(data, 0, entry_total(data)) == Err::<
                    Seq<ZipMeta>,
                    MojoErrorView,
                >(e@),
            }
        }),
{
    let ghost data = archive_bytes(*archive);
    let ghost whole = entries_between(data, 0, entry_total(data));
    let total: usize = archive_len(archive);
    let mut entries: Vec<ZipEntryInfo> = Vec::new();
    let mut i: usize = 0;
    while i < total
        invariant
            i <= total,
            total as nat == entry_total(data),
            archive_bytes(*archive) == data,
            whole == entries_between(data, 0, entry_total(data)),
            data == archive_bytes(*old(archive)),
            match entries_between(data, i as nat, total as nat) {
                Ok(rest) => whole == Ok::<Seq<ZipMeta>, MojoErrorView>(
                    infos_view(entries@) + rest,
                ),
                Err(e) => whole == Err::<Seq<ZipMeta>, MojoErrorView>(e),
            },
            forall|i: int| 0 <= i < entries@.len() ==> info_is_sound(#[trigger] entries@[i]),
        decreases total - i,
    {
        let ghost before = infos_view(entries@);
        match entry_at(archive, i) {
            Ok(info) => {
                proof {
                    if let Ok(rest) = entries_between(data, (i + 1) as nat, total as nat) {
                        assert(before + (seq![info@] + rest) =~= before.push(info@) + rest);
                    }
                }
                entries.push(info);
                assert(infos_view(entries@) =~= before.push(info@));
            },
            Err(cause) => {
                return Err(MojoError::Entry { index: i, cause });
            },
        }
        i = i + 1;
    }
    assert(infos_view(entries@) + Seq::<ZipMeta>::empty() =~= infos_view(entries@));
    Ok(entries)
}

/// Lists the entries of the archive `data`.
pub fn list_lines(data: &[u8]) -> (lines: Result<Vec<String>, MojoError>)
    ensures
        match lines {
            Ok(lines) => archive_entries(data@) is Ok && texts(lines@) == listing_of(
                archive_entries(data@)->Ok_0,
            ),
            Err(e) => archive_entries(data@) == Err::<Seq<ZipMeta>, MojoErrorView>(e@),
        },
{
    let mut archive = match open_archive(data) {
        Ok(archive) => archive,
        Err(cause) => {
            return Err(MojoError::Open(cause));
        },
    };
    match read_entries(&mut archive) {
        Ok(entries) => {
            assert forall|i: int| 0 <= i < entries@.len() implies #[trigger] entries@[i].is_dir
                == names_directory(entries@[i].name@) by {
                assert(info_is_sound(entries@[i]));
            }
            Ok(listing_lines(&entries))
        },
        Err(e) => Err(e),
    }
}

// ---------------------------------------------------------------------------
// Counting
// ---------------------------------------------------------------------------

/// How much there is in an archive.
#[derive(Debug, Clone, Copy, PartialEq, Eq, Structural)]
pub struct ZipCounts {
    /// All entries, directories among them.
    pub entry_count: usize,
    /// Files only.
    pub file_count: usize,
}

/// How many of the first `n` entries of the archive `data` are files that can be found.
pub open spec fn files_found(data: Seq<u8>, n: nat) -> nat
    decreases n,
{
    if n == 0 {
        0
    } else {
        let before = files_found(data, (n - 1) as nat);
        match raw_entry_name(data, (n - 1) as nat) {
            Some(name) if !names_directory(name) => before + 1,
            _ => before,
        }
    }
}

/// All entries before `n` can be read, and these are they.
pub open spec fn are_entries(data: Seq<u8>, entries: Seq<ZipMeta>, n: nat) -> bool {
    &&& entries.len() == n
    &&& forall|i: int|
        0 <= i < n ==> entry_found(data, i as nat) == Ok::<ZipMeta, Seq<char>>(
            #[trigger] entries[i],
        )
}

proof fn lemma_entries_between(data: Seq<u8>, from: nat, to: nat)
    requires
        from <= to,
    ensures
        entries_between(data, from, to) matches Ok(entries) ==> {
            &&& entries.len() == to - from
            &&& forall|i: int|
                from <= i < to ==> entry_found(data, i as nat) == Ok::<ZipMeta, Seq<char>>(
                    #[trigger] entries[i - from],
                )
        },
    decreases to - from,
{
    if from < to {
        lemma_entries_between(data, from + 1, to);
        if let Ok(entries) = entries_between(data, from, to) {
            let rest = entries_between(data, from + 1, to)->Ok_0;
            assert forall|i: int| from <= i < to implies entry_found(data, i as nat) == Ok::<
                ZipMeta,
                Seq<char>,
            >(#[trigger] entries[i - from]) by {
                if i > from {
                    assert(entries[i - from] == rest[i - (from + 1)]);
                }
            }
        }
    }
}

/// Counts the entries of the archive `data`. The directory of the archive is read once, and
/// nothing is unpacked. Where every entry can be read, the files counted are those of a listing.
pub fn scan_zip_counts(data: &[u8]) -> (counts: Result<ZipCounts, MojoError>)
    ensures
        match counts {
            Ok(counts) => {
                &&& open_error(data@) is None
                &&& counts.entry_count == entry_total(data@)
                &&& counts.file_count == files_found(data@, entry_total(data@))
                &&& archive_entries(data@) matches Ok(entries) ==> counts.file_count == files_in(
                    entries,
                )
            },
            Err(e) => open_error(data@) matches Some(cause) && e@ == MojoErrorView::Open(cause),
        },
{
    let mut archive = match open_archive(data) {
        Ok(archive) => archive,
        Err(cause) => {
            return Err(MojoError::Open(cause));
        },
    };
    let entry_count: usize = archive_len(&archive);
    let ghost all = archive_entries(data@);
    proof {
        lemma_entries_between(data@, 0, entry_count as nat);
        if let Ok(entries) = all {
            assert forall|i: int| 0 <= i < entry_count implies entry_found(data@, i as nat) == Ok::<
                ZipMeta,
                Seq<char>,
            >(#[trigger] entries[i]) by {
                assert(entries[i] == entries[i - 0nat]);
            }
            assert(entries.take(0) =~= Seq::empty());
        }
    }
    let mut file_count: usize = 0;
    let mut i: usize = 0;
    while i < entry_count
        invariant
            i <= entry_count,
            archive_bytes(archive) == data@,
            file_count == files_found(data@, i as nat) <= i,
            all matches Ok(entries) ==> {
                &&& are_entries(data@, entries, entry_count as nat)
                &&& file_count == files_in(entries.take(i as int))
            },
        decreases entry_count - i,
    {
        let found = raw_entry_at(&mut archive, i);
        proof {
            if let Ok(entries) = all {
                assert(entry_found(data@, i as nat) == Ok::<ZipMeta, Seq<char>>(
                    entries[i as int],
                ));
                assert(entries.take(i + 1).drop_last() =~= entries.take(i as int));
            }
        }
        if let Some(is_dir) = found {
            if !is_dir {
                file_count = file_count + 1;
            }
        }
        i = i + 1;
    }
    proof {
        if let Ok(entries) = all {
            assert(entries.take(entries.len() as int) =~= entries);
        }
    }
    Ok(ZipCounts { entry_count, file_count })
}

// ---------------------------------------------------------------------------
// Extraction
// ---------------------------------------------------------------------------

/// What to do with one entry.
#[derive(Debug)]
pub enum EntryStep {
    /// Stop: the run is no longer wanted.
    Stop(Cancelled),
    /// Warn that the entry of that name is passed over, as its path is not safe.
    Skip { name: String },
    /// Make a directory.
    MakeDirectory { path: String },
    /// Write a file, and set its permissions where they are known.
    WriteFile { path: String, unix_mode: Option<u32>, shown: Option<String> },
}

/// What a step holds.
pub ghost enum EntryStepView {
    Stop,
    Skip { name: Seq<char> },
    MakeDirectory { path: Seq<char> },
    WriteFile { path: Seq<char>, unix_mode: Option<u32>, shown: Option<Seq<char>> },
}

/// The name to show for the file at `path`: the last part, if it is text and names something.
pub open spec fn shown_name(path: Seq<char>, windows: bool) -> Option<Seq<char>> {
    match file_name_of(encode_utf8(path), windows) {
        Some(bytes) if valid_utf8(bytes) => Some(decode_utf8(bytes)),
        _ => None,
    }
}

impl View for EntryStep {
    type V = EntryStepView;

    open spec fn view(&self) -> EntryStepView {
        match self {
            EntryStep::Stop(_) => EntryStepView::Stop,
            EntryStep::Skip { name } => EntryStepView::Skip { name: name@ },
            EntryStep::MakeDirectory { path } => EntryStepView::MakeDirectory { path: path@ },
            EntryStep::WriteFile { path, unix_mode, shown } => EntryStepView::WriteFile {
                path: path@,
                unix_mode: *unix_mode,
                shown: match shown {
                    Some(name) => Some(name@),
                    None => None,
                },
            },
        }
    }
}

/// What to do with an entry, whose path is `enclosed` where it is safe.
pub open spec fn step_for(
    entry: ZipMeta,
    is_dir: bool,
    enclosed: Option<Seq<char>>,
    windows: bool,
) -> EntryStepView {
    match enclosed {
        None => EntryStepView::Skip { name: entry.name },
        Some(path) => if is_dir {
            EntryStepView::MakeDirectory { path }
        } else {
            EntryStepView::WriteFile {
                path,
                unix_mode: entry.unix_mode,
                shown: shown_name(path, windows),
            }
        },
    }
}

/// What to do with an entry.
pub fn plan_entry(info: ZipEntryInfo, windows: bool) -> (step: EntryStep)
    ensures
        step@ == step_for(
            info@,
            info.is_dir,
            match info.enclosed {
                Some(path) => Some(path@),
                None => None,
            },
            windows,
        ),
{
    match info.enclosed {
        None => EntryStep::Skip { name: info.name },
        Some(path) => if info.is_dir {
            EntryStep::MakeDirectory { path }
        } else {
            let shown = match file_name(path.as_str().as_bytes(), windows) {
                Some(bytes) => utf8_text(bytes.as_slice()).ok(),
                None => None,
            };
            EntryStep::WriteFile { path, unix_mode: info.unix_mode, shown }
        },
    }
}

/// What a worker does with the entry `entry`: it is passed over or written where its own name
/// says. It is written where the name stays in the output directory on every system, and passed
/// over where it leads out on every system.
pub open spec fn is_step_for(entry: ZipMeta, windows: bool, step: EntryStepView) -> bool {
    let is_dir = names_directory(entry.name);
    &&& step == step_for(entry, is_dir, Some(entry.name), windows) || step == step_for(
        entry,
        is_dir,
        None,
        windows,
    )
    &&& is_safe_everywhere(entry.name) ==> !(step is Skip)
    &&& is_unsafe_everywhere(entry.name) ==> step is Skip
    &&& entry.name.contains('\0') || entry.name.len() > 0 && entry.name[0] == '/' ==> step is Skip
}

/// What a worker on the archive `data` is to do with the entry at `index`.
pub open spec fn worker_step(
    data: Seq<u8>,
    index: nat,
    running: bool,
    windows: bool,
    step: Result<EntryStep, MojoError>,
) -> bool {
    if !running {
        step matches Ok(EntryStep::Stop(_))
    } else {
        match (open_error(data), entry_found(data, index)) {
            (Some(cause), _) => step matches Err(e) && e@ == MojoErrorView::Worker(cause),
            (None, Err(cause)) => step matches Err(e) && e@ == (MojoErrorView::Entry {
                index: index as int,
                cause,
            }),
            (None, Ok(entry)) => step matches Ok(s) && is_step_for(entry, windows, s@),
        }
    }
}

/// One reader of an archive, for one of the workers that unpack it.
pub struct ZipWorker<'a> {
    /// The bytes of the archive.
    data: &'a [u8],
    /// The archive, or why it cannot be opened.
    archive: Result<zip::ZipArchive<std::io::Cursor<&'a [u8]>>, String>,
}

impl<'a> ZipWorker<'a> {
    /// The bytes of the archive.
    pub closed spec fn bytes(&self) -> Seq<u8> {
        self.data@
    }

    /// The archive is that of the bytes.
    pub closed spec fn wf(&self) -> bool {
        match self.archive {
            Ok(archive) => open_error(self.data@) is None && archive_bytes(archive) == self.data@,
            Err(cause) => open_error(self.data@) == Some(cause@),
        }
    }

    /// A worker on the archive `data`.
    pub fn open(data: &'a [u8]) -> (worker: Self)
        ensures
            worker.wf(),
            worker.bytes() == data@,
    {
        ZipWorker { data, archive: open_archive(data) }
    }

    /// What to do with the entry at `index`. While the run is not wanted (`running` is false)
    /// that is to stop. The name to show is taken from a path of Windows or not.
    pub fn step(&mut self, index: usize, running: bool, windows: bool) -> (step: Result<
        EntryStep,
        MojoError,
    >)
        requires
            old(self).wf(),
        ensures
            final(self).wf(),
            final(self).bytes() == old(self).bytes(),
            worker_step(old(self).bytes(), index as nat, running, windows, step),
    {
        if !running {
            return Ok(EntryStep::Stop(Cancelled));
        }
        match &mut self.archive {
            Err(cause) => Err(MojoError::Worker(cause.clone())),
            Ok(archive) => match entry_at(archive, index) {
                Err(cause) => Err(MojoError::Entry { index, cause }),
                Ok(info) => Ok(plan_entry(info, windows)),
            },
        }
    }

    /// Starts to unpack the entry at `index`.
    pub fn unpack<'w>(&'w mut self, index: usize) -> (unpacking: Result<
        EntryUnpacking<'w, 'a>,
        MojoError,
    >)
        requires
            old(self).wf(),
        ensures
            final(self).wf(),
            final(self).bytes() == old(self).bytes(),
            match (open_error(old(self).bytes()), entry_found(old(self).bytes(), index as nat)) {
                (Some(cause), _) => unpacking matches Err(e) && e@ == MojoErrorView::Worker(cause),
                (None, Err(cause)) => unpacking matches Err(e) && e@ == (MojoErrorView::Entry {
                    index: index as int,
                    cause,
                }),
                (None, Ok(entry)) => unpacking matches Ok(u) && u.wf() && u@ == unpacking_of(
                    entry.name,
                    entry_content(old(self).bytes(), index as nat),
                ),
            },
    {
        match &mut self.archive {
            Err(cause) => Err(MojoError::Worker(cause.clone())),
            Ok(archive) => match open_entry(archive, index) {
                Err(cause) => Err(MojoError::Entry { index, cause }),
                Ok(entry) => Ok(EntryUnpacking::new(entry)),
            },
        }
    }
}

/// What to do with the entry at `index` of the archive `data`, which is opened for that alone.
pub fn entry_step(data: &[u8], index: usize, running: bool, windows: bool) -> (step: Result<
    EntryStep,
    MojoError,
>)
    ensures
        worker_step(data@, index as nat, running, windows, step),
{
    let mut worker = ZipWorker::open(data);
    worker.step(index, running, windows)
}

} // verus!
