//! What holds of each file that is written from a package.

use vstd::prelude::*;

use crate::cpio::{cpio_entry, cpio_file, cpio_files, lemma_entry_takes_bytes, CpioEntryView};
use crate::cpio::{lemma_file_takes_bytes, Found};
use crate::numbers::counted;
use crate::pkg::payload;
use crate::pkg_extract::{archive_steps, directory_for, done_after, done_after_files, entry_steps};
use crate::pkg_extract::{extraction_steps, file_step, file_steps, option_text, step_agrees};
use crate::pkg_extract::{permission_bits, warned_steps, ExtractStep, StepView};
use crate::pkg_laws::{count_up, law_written_files_are_counted};
use crate::safe_path::safe_path;
use crate::select::{before_last_slash, component_label, component_of};
use crate::toc::{EntryKind, EntryView};
use crate::xar::XarHeader;

verus! {

// ---------------------------------------------------------------------------
// Files of an archive
// ---------------------------------------------------------------------------

/// The body of every entry has the size that the entry tells.
pub proof fn law_bodies_have_their_size(s: Seq<u8>, i: int)
    requires
        0 <= i < cpio_files(s).files.len(),
    ensures
        cpio_files(s).files[i].1.len() == cpio_files(s).files[i].0.file_size,
    decreases s.len(),
{
    lemma_body_size(s);
    lemma_file_takes_bytes(s);
    if i > 0 {
        if let Ok(Found::Entry(p)) = cpio_file(s) {
            law_bodies_have_their_size(p.rest, i - 1);
            assert(cpio_files(s).files[i] == cpio_files(p.rest).files[i - 1]);
        }
    }
}

proof fn lemma_body_size(s: Seq<u8>)
    ensures
        cpio_file(s) matches Ok(Found::Entry(p)) ==> p.body.len() == p.entry.file_size,
    decreases s.len(),
{
    lemma_entry_takes_bytes(s);
    if let Ok(Found::Entry(p)) = cpio_entry(s) {
        lemma_body_size(p.rest);
    }
}

/// The permission bits of a mode are its twelve lowest, and none where they are all zero.
pub proof fn law_permissions(mode: u32)
    ensures
        permission_bits(mode) == if mode % 4096 == 0 {
            None
        } else {
            Some((mode % 4096) as u32)
        },
{
    assert(mode & 0o7777 == mode % 4096) by (bit_vector);
}

/// `step` is what is to be done with the file `file` that holds `body`: it is written whole, at its
/// safe path below `component`, with its permission bits; or passed over under its own name where
/// there is no such path.
pub open spec fn is_done_with(
    step: StepView,
    file: CpioEntryView,
    body: Seq<u8>,
    component: Option<Seq<char>>,
    windows: bool,
) -> bool {
    match safe_path(file.name, windows) {
        None => step == StepView::WarnUnsafe(file.name),
        Some(safe) => {
            &&& step matches StepView::Write { component: c, path, permissions, body: b, files_done }
            &&& b == body
            &&& path == safe
            &&& c == component
            &&& file.mode % 4096 == 0 ==> permissions is None
            &&& file.mode % 4096 != 0 ==> permissions == Some((file.mode % 4096) as u32)
        },
    }
}

proof fn lemma_file_at(
    files: Seq<(CpioEntryView, Seq<u8>)>,
    component: Option<Seq<char>>,
    windows: bool,
    done: u64,
)
    ensures
        file_steps(files, component, windows, done).len() == files.len(),
        forall|i: int|
            0 <= i < files.len() ==> is_done_with(
                #[trigger] file_steps(files, component, windows, done)[i],
                files[i].0,
                files[i].1,
                component,
                windows,
            ),
    decreases files.len(),
{
    if files.len() > 0 {
        let step = file_step(files[0].0, files[0].1, component, windows, done);
        let rest = files.drop_first();
        let next = done_after(step, done);
        let steps = file_steps(files, component, windows, done);
        lemma_file_at(rest, component, windows, next);
        law_permissions(files[0].0.mode);
        assert forall|i: int| 0 <= i < files.len() implies is_done_with(
            #[trigger] steps[i],
            files[i].0,
            files[i].1,
            component,
            windows,
        ) by {
            if i > 0 {
                assert(steps[i] == file_steps(rest, component, windows, next)[i - 1]);
                assert(files[i] == rest[i - 1]);
            }
        }
    }
}

// ---------------------------------------------------------------------------
// Steps of a run
// ---------------------------------------------------------------------------

/// The files in the archive that `entry` holds, directories left out, each with what it holds.
pub open spec fn files_of(data: Seq<u8>, header: XarHeader, entry: EntryView) -> Seq<
    (CpioEntryView, Seq<u8>),
> {
    match payload(data, header, entry) {
        Ok(archive) => cpio_files(archive).files,
        Err(_) => Seq::empty(),
    }
}

/// The archive that `entry` holds can be read to its end.
pub open spec fn is_readable(data: Seq<u8>, header: XarHeader, entry: EntryView) -> bool {
    payload(data, header, entry) matches Ok(archive) && cpio_files(archive).error is None
}

/// One where a warning comes before the files of `entry`.
pub open spec fn warnings(entry: EntryView) -> nat {
    if entry.kind == EntryKind::Scripts {
        1
    } else {
        0
    }
}

/// How many steps come before those of entry number `k`.
pub open spec fn steps_before(
    data: Seq<u8>,
    header: XarHeader,
    entries: Seq<EntryView>,
    k: int,
) -> nat
    decreases k,
{
    if k <= 0 {
        0
    } else {
        steps_before(data, header, entries, k - 1) + warnings(entries[k - 1]) + files_of(
            data,
            header,
            entries[k - 1],
        ).len()
    }
}

proof fn lemma_steps_before(data: Seq<u8>, header: XarHeader, entries: Seq<EntryView>, k: int)
    requires
        0 < k <= entries.len(),
    ensures
        steps_before(data, header, entries, k) == warnings(entries[0]) + files_of(
            data,
            header,
            entries[0],
        ).len() + steps_before(data, header, entries.drop_first(), k - 1),
    decreases k,
{
    reveal_with_fuel(steps_before, 2);
    if k > 1 {
        lemma_steps_before(data, header, entries, k - 1);
        assert(entries[k - 1] == entries.drop_first()[k - 2]);
    }
}

proof fn lemma_one_entry(
    data: Seq<u8>,
    header: XarHeader,
    entries: Seq<EntryView>,
    apart: bool,
    windows: bool,
    done: u64,
)
    requires
        entries.len() > 0,
    ensures
        ({
            let steps = entry_steps(data, header, entries, apart, windows, done);
            let own = files_of(data, header, entries[0]);
            let w = warnings(entries[0]) as int;
            let next = done_after_files(own, directory_for(entries[0], apart), windows, done);
            &&& steps.len() > w + own.len()
            &&& w == 1 ==> steps[0] == StepView::WarnScripts(component_label(entries[0].full_path))
            &&& forall|i: int|
                0 <= i < own.len() ==> is_done_with(
                    #[trigger] steps[w + i],
                    own[i].0,
                    own[i].1,
                    directory_for(entries[0], apart),
                    windows,
                )
            &&& is_readable(data, header, entries[0]) ==> steps.skip(w + own.len()) == entry_steps(
                data,
                header,
                entries.drop_first(),
                apart,
                windows,
                next,
            )
        }),
{
    let steps = entry_steps(data, header, entries, apart, windows, done);
    let rest = warned_steps(data, header, entries, apart, windows, done);
    let own = files_of(data, header, entries[0]);
    let w = warnings(entries[0]) as int;
    let component = directory_for(entries[0], apart);
    lemma_nonempty(
        data,
        header,
        entries.drop_first(),
        apart,
        windows,
        done_after_files(own, component, windows, done),
    );
    assert(rest == steps.skip(w)) by {
        assert(steps.skip(w) =~= rest);
    }
    if let Ok(archive) = payload(data, header, entries[0]) {
        lemma_file_at(own, component, windows, done);
        let written = file_steps(own, component, windows, done);
        assert(rest.len() > own.len());
        assert forall|i: int| 0 <= i < own.len() implies is_done_with(
            #[trigger] steps[w + i],
            own[i].0,
            own[i].1,
            component,
            windows,
        ) by {
            assert(steps[w + i] == rest[i]);
            assert(rest[i] == written[i]);
        }
        if is_readable(data, header, entries[0]) {
            let more = entry_steps(
                data,
                header,
                entries.drop_first(),
                apart,
                windows,
                done_after_files(own, component, windows, done),
            );
            assert(rest == written + more);
            assert(steps.skip(w + own.len()) =~= more);
        }
    }
}

proof fn lemma_nonempty(
    data: Seq<u8>,
    header: XarHeader,
    entries: Seq<EntryView>,
    apart: bool,
    windows: bool,
    done: u64,
)
    ensures
        entry_steps(data, header, entries, apart, windows, done).len() > 0,
        warned_steps(data, header, entries, apart, windows, done).len() > 0,
    decreases entries.len(),
{
    if entries.len() > 0 {
        if let Ok(archive) = payload(data, header, entries[0]) {
            let run = cpio_files(archive);
            let component = directory_for(entries[0], apart);
            lemma_nonempty(
                data,
                header,
                entries.drop_first(),
                apart,
                windows,
                done_after_files(run.files, component, windows, done),
            );
            let all = archive_steps(
                data,
                header,
                archive,
                component,
                entries.drop_first(),
                apart,
                windows,
                done,
            );
            assert(warned_steps(data, header, entries, apart, windows, done) == all);
            assert(all.len() > 0);
        }
    }
}

proof fn lemma_entry_at(
    data: Seq<u8>,
    header: XarHeader,
    entries: Seq<EntryView>,
    apart: bool,
    windows: bool,
    done: u64,
    k: int,
)
    requires
        0 <= k < entries.len(),
        forall|j: int| 0 <= j < k ==> is_readable(data, header, #[trigger] entries[j]),
    ensures
        ({
            let steps = entry_steps(data, header, entries, apart, windows, done);
            let own = files_of(data, header, entries[k]);
            let at = steps_before(data, header, entries, k);
            let w = warnings(entries[k]);
            &&& steps.len() > at + w + own.len()
            &&& w == 1 ==> steps[at as int] == StepView::WarnScripts(
                component_label(entries[k].full_path),
            )
            &&& forall|i: int|
                0 <= i < own.len() ==> is_done_with(
                    #[trigger] steps[at + w + i],
                    own[i].0,
                    own[i].1,
                    directory_for(entries[k], apart),
                    windows,
                )
        }),
    decreases k,
{
    lemma_one_entry(data, header, entries, apart, windows, done);
    if k > 0 {
        let steps = entry_steps(data, header, entries, apart, windows, done);
        let first = files_of(data, header, entries[0]);
        let skipped = warnings(entries[0]) + first.len();
        let next = done_after_files(first, directory_for(entries[0], apart), windows, done);
        let rest = entries.drop_first();
        assert(is_readable(data, header, entries[0]));
        assert forall|j: int| 0 <= j < k - 1 implies is_readable(
            data,
            header,
            #[trigger] rest[j],
        ) by {
            assert(rest[j] == entries[j + 1]);
        }
        lemma_entry_at(data, header, rest, apart, windows, next, k - 1);
        lemma_steps_before(data, header, entries, k);
        let more = entry_steps(data, header, rest, apart, windows, next);
        assert(more == steps.skip(skipped as int));
        assert(rest[k - 1] == entries[k]);
        let own = files_of(data, header, entries[k]);
        let at = steps_before(data, header, entries, k);
        let w = warnings(entries[k]);
        let there = steps_before(data, header, rest, k - 1);
        assert(at == skipped + there);
        assert forall|i: int| 0 <= i < own.len() implies is_done_with(
            #[trigger] steps[at + w + i],
            own[i].0,
            own[i].1,
            directory_for(entries[k], apart),
            windows,
        ) by {
            assert(steps[at + w + i] == more[there + w + i]);
        }
        if w == 1 {
            assert(steps[at as int] == more[there as int]);
        }
    } else {
        let steps = entry_steps(data, header, entries, apart, windows, done);
        let own = files_of(data, header, entries[0]);
        let at = steps_before(data, header, entries, 0);
        let w = warnings(entries[0]);
        assert(at == 0);
        assert forall|i: int| 0 <= i < own.len() implies is_done_with(
            #[trigger] steps[at + w + i],
            own[i].0,
            own[i].1,
            directory_for(entries[0], apart),
            windows,
        ) by {
            assert(at + w + i == w + i);
        }
    }
}

/// Every file of every archive of a package is written, whole and in order: the step for file
/// number `i` of archive number `k` comes behind those of the archives before it, a warning where
/// the archive holds scripts, and the files before it. The file is written with all the bytes that
/// the archive stores for it, as many as it tells of, at its safe path, with its permission bits,
/// and below a directory named after its component where there is more than one archive; or it is
/// passed over where its path is not safe. The archives before it have to be readable.
pub proof fn law_every_file_is_written_whole(
    data: Seq<u8>,
    header: XarHeader,
    entries: Seq<EntryView>,
    windows: bool,
    k: int,
    i: int,
)
    requires
        0 <= k < entries.len(),
        forall|j: int| 0 <= j < k ==> is_readable(data, header, #[trigger] entries[j]),
        0 <= i < files_of(data, header, entries[k]).len(),
    ensures
        ({
            let steps = extraction_steps(data, header, entries, windows);
            let (file, content) = files_of(data, header, entries[k])[i];
            let at = steps_before(data, header, entries, k) + warnings(entries[k]) + i;
            &&& at < steps.len()
            &&& content.len() == file.file_size
            &&& safe_path(file.name, windows) is None ==> steps[at] == StepView::WarnUnsafe(
                file.name,
            )
            &&& safe_path(file.name, windows) matches Some(safe) ==> {
                &&& steps[at] matches StepView::Write {
                    component,
                    path,
                    permissions,
                    body,
                    files_done,
                }
                &&& body == content
                &&& body.len() == file.file_size
                &&& path == safe
                &&& entries.len() == 1 ==> component is None
                &&& entries.len() > 1 ==> component == Some(component_label(entries[k].full_path))
                &&& file.mode % 4096 == 0 ==> permissions is None
                &&& file.mode % 4096 != 0 ==> permissions == Some((file.mode % 4096) as u32)
            }
        }),
{
    let steps = extraction_steps(data, header, entries, windows);
    let own = files_of(data, header, entries[k]);
    let archive = payload(data, header, entries[k])->Ok_0;
    law_bodies_have_their_size(archive, i);
    lemma_entry_at(data, header, entries, entries.len() > 1, windows, 0, k);
    let at = steps_before(data, header, entries, k) + warnings(entries[k]) + i;
    assert(is_done_with(
        steps[at],
        own[i].0,
        own[i].1,
        directory_for(entries[k], entries.len() > 1),
        windows,
    ));
}

/// A package whose archives can all be read takes one step for each file, one for each archive of
/// scripts, and one more, which is the end.
pub proof fn law_a_readable_package_is_finished(
    data: Seq<u8>,
    header: XarHeader,
    entries: Seq<EntryView>,
    windows: bool,
)
    requires
        forall|j: int| 0 <= j < entries.len() ==> is_readable(data, header, #[trigger] entries[j]),
    ensures
        ({
            let steps = extraction_steps(data, header, entries, windows);
            &&& steps.len() == steps_before(data, header, entries, entries.len() as int) + 1
            &&& steps.last() == StepView::Finished
        }),
{
    lemma_readable(data, header, entries, entries.len() > 1, windows, 0);
}

proof fn lemma_readable(
    data: Seq<u8>,
    header: XarHeader,
    entries: Seq<EntryView>,
    apart: bool,
    windows: bool,
    done: u64,
)
    requires
        forall|j: int| 0 <= j < entries.len() ==> is_readable(data, header, #[trigger] entries[j]),
    ensures
        ({
            let steps = entry_steps(data, header, entries, apart, windows, done);
            &&& steps.len() == steps_before(data, header, entries, entries.len() as int) + 1
            &&& steps.last() == StepView::Finished
        }),
    decreases entries.len(),
{
    let n = entries.len() as int;
    if n > 0 {
        let first = files_of(data, header, entries[0]);
        let next = done_after_files(first, directory_for(entries[0], apart), windows, done);
        let rest = entries.drop_first();
        assert(is_readable(data, header, entries[0]));
        assert forall|j: int| 0 <= j < rest.len() implies is_readable(
            data,
            header,
            #[trigger] rest[j],
        ) by {
            assert(rest[j] == entries[j + 1]);
        }
        lemma_readable(data, header, rest, apart, windows, next);
        lemma_one_entry(data, header, entries, apart, windows, done);
        lemma_steps_before(data, header, entries, n);
        let steps = entry_steps(data, header, entries, apart, windows, done);
        let more = entry_steps(data, header, rest, apart, windows, next);
        assert(steps.last() == more.last());
    } else {
        assert(steps_before(data, header, entries, 0) == 0);
    }
}

/// How many of the first `n` of `steps` write a file.
pub open spec fn writes_in(steps: Seq<StepView>, n: int) -> nat
    decreases n,
{
    if n <= 0 {
        0
    } else if steps[n - 1] is Write {
        writes_in(steps, n - 1) + 1
    } else {
        writes_in(steps, n - 1)
    }
}

proof fn lemma_writes_shift(steps: Seq<StepView>, n: int)
    requires
        0 < n <= steps.len(),
    ensures
        writes_in(steps, n) == writes_in(steps.drop_first(), n - 1) + if steps[0] is Write {
            1nat
        } else {
            0
        },
    decreases n,
{
    reveal_with_fuel(writes_in, 2);
    if n > 1 {
        lemma_writes_shift(steps, n - 1);
        assert(steps[n - 1] == steps.drop_first()[n - 2]);
    }
}

proof fn lemma_numbered(steps: Seq<StepView>, before: nat, at: int)
    requires
        count_up(steps, counted(before as int)),
        0 <= at < steps.len(),
    ensures
        steps[at] matches StepView::Write { files_done, .. } ==> files_done == counted(
            (before + writes_in(steps, at + 1)) as int,
        ),
    decreases at,
{
    lemma_writes_shift(steps, at + 1);
    assert(counted(counted(before as int) + 1) == counted(before as int + 1)) by {
        reveal(counted);
    }
    if at > 0 {
        let more = if steps[0] is Write {
            before + 1
        } else {
            before
        };
        assert(done_after(steps[0], counted(before as int)) == counted(more as int));
        lemma_numbered(steps.drop_first(), more, at - 1);
        assert(steps[at] == steps.drop_first()[at - 1]);
    }
}

/// Each file that is written carries the number of files written with it, as far as a counter of
/// sixty-four bits holds it.
pub proof fn law_written_files_are_numbered(
    data: Seq<u8>,
    header: XarHeader,
    entries: Seq<EntryView>,
    windows: bool,
    at: int,
)
    requires
        0 <= at < extraction_steps(data, header, entries, windows).len(),
    ensures
        extraction_steps(data, header, entries, windows)[at] matches StepView::Write {
            files_done,
            ..
        } ==> files_done == writes_in(
            extraction_steps(data, header, entries, windows),
            at + 1,
        ) % 0x1_0000_0000_0000_0000,
{
    law_written_files_are_counted(data, header, entries, windows);
    assert(counted(0) == 0) by {
        reveal(counted);
    }
    lemma_numbered(extraction_steps(data, header, entries, windows), 0, at);
    reveal(counted);
}

/// A step that is handed out holds what is to be done, in full: the file at its path, all its bytes
/// and its permission bits, or the name or component that is warned of.
pub proof fn law_steps_hold_what_is_to_be_done(step: ExtractStep, meaning: StepView)
    requires
        step_agrees(step, meaning),
    ensures
        match step {
            ExtractStep::Write(write) => {
                &&& meaning matches StepView::Write {
                    component,
                    path,
                    permissions,
                    body,
                    files_done,
                }
                &&& write.body@ == body
                &&& write.path@ == path
                &&& write.permissions == permissions
                &&& write.files_done == files_done
                &&& option_text(write.component) == component
            },
            ExtractStep::WarnUnsafe(name) => meaning == StepView::WarnUnsafe(name@),
            ExtractStep::WarnScripts(component) => meaning == StepView::WarnScripts(component@),
            ExtractStep::Finished => meaning == StepView::Finished,
            ExtractStep::Cancelled => false,
        },
{
}

// ---------------------------------------------------------------------------
// Components
// ---------------------------------------------------------------------------

proof fn lemma_last_slash(dir: Seq<char>, leaf: Seq<char>)
    requires
        !leaf.contains('/'),
    ensures
        before_last_slash(dir.push('/') + leaf) == Some(dir),
        before_last_slash(leaf) is None,
    decreases leaf.len(),
{
    let path = dir.push('/') + leaf;
    if leaf.len() == 0 {
        assert(path.drop_last() =~= dir);
    } else {
        assert(leaf.contains(leaf.last()));
        let shorter = leaf.drop_last();
        assert(path.drop_last() =~= dir.push('/') + shorter);
        assert(!shorter.contains('/')) by {
            if shorter.contains('/') {
                let i = choose|i: int| 0 <= i < shorter.len() && shorter[i] == '/';
                assert(leaf[i] == '/');
            }
        }
        lemma_last_slash(dir, shorter);
    }
}

/// The component of an entry is called after what stands before the last slash of its path, or after
/// the path where there is no slash.
pub proof fn law_components_are_called_after_their_directory(dir: Seq<char>, leaf: Seq<char>)
    requires
        !leaf.contains('/'),
    ensures
        component_label(dir.push('/') + leaf) == dir,
        component_label(leaf) == leaf,
        component_of(dir.push('/') + leaf) == dir.push('/'),
        component_of(leaf) == Seq::<char>::empty(),
{
    lemma_last_slash(dir, leaf);
}

/// The files of an archive of scripts are warned of first, under the name of the component; those of
/// a payload are not.
pub proof fn law_scripts_are_warned_of(
    data: Seq<u8>,
    header: XarHeader,
    entries: Seq<EntryView>,
    windows: bool,
    k: int,
)
    requires
        0 <= k < entries.len(),
        forall|j: int| 0 <= j < k ==> is_readable(data, header, #[trigger] entries[j]),
    ensures
        ({
            let steps = extraction_steps(data, header, entries, windows);
            let at = steps_before(data, header, entries, k) as int;
            &&& at < steps.len()
            &&& entries[k].kind == EntryKind::Scripts ==> steps[at] == StepView::WarnScripts(
                component_label(entries[k].full_path),
            )
            &&& entries[k].kind == EntryKind::Payload && files_of(data, header, entries[k]).len() > 0
                ==> !(steps[at] is WarnScripts)
        }),
{
    let steps = extraction_steps(data, header, entries, windows);
    let own = files_of(data, header, entries[k]);
    let at = steps_before(data, header, entries, k);
    lemma_entry_at(data, header, entries, entries.len() > 1, windows, 0, k);
    if entries[k].kind == EntryKind::Payload && own.len() > 0 {
        let first: int = 0;
        assert(is_done_with(
            steps[at + warnings(entries[k]) + first],
            own[0].0,
            own[0].1,
            directory_for(entries[k], entries.len() > 1),
            windows,
        ));
    }
}

} // verus!
