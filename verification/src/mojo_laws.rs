//! What holds of the extraction of a ZIP archive.

use vstd::prelude::*;
use vstd::utf8::{encode_utf8, encode_utf8_decode_utf8, encode_utf8_valid_utf8};

use crate::mojo::{is_step_for, shown_name, worker_step, EntryStep, EntryStepView, MojoError};
use crate::mojo::MojoErrorView;
use crate::mojo_list_laws::is_folder;
use crate::name_laws::{is_plain_name, law_a_name_is_its_own_name, law_last_part_is_the_name};
use crate::name_laws::{lemma_encode_ascii, lemma_encode_concat, lemma_plain_name};
use crate::paths::prefix_len;
use crate::split::split_on;
use crate::text::{joined, lemma_first_index, lemma_first_index_is};
use crate::text_laws::law_parts_read_back;
use crate::unpack::{part_follows, unpacking_of, Unpacking};
use crate::zip_archive::{depth_after, entry_content, entry_found, is_portable};
use crate::zip_archive::{is_safe_everywhere, is_unsafe_everywhere, lemma_portable};
use crate::zip_archive::{names_directory, never_climbs_out, open_error, ZipMeta};

verus! {

// ---------------------------------------------------------------------------
// Where entries go
// ---------------------------------------------------------------------------

/// An entry is written, or made as a directory, only at its own name, and never where that leads
/// out of the output directory on every system. Where the parts of the name are the same on every
/// system, it does not lead out on any.
pub proof fn law_entries_are_written_inside(entry: ZipMeta, windows: bool, step: EntryStepView)
    requires
        is_step_for(entry, windows, step),
    ensures
        match step {
            EntryStepView::WriteFile { path, .. } | EntryStepView::MakeDirectory { path } => {
                &&& path == entry.name
                &&& !is_unsafe_everywhere(path)
                &&& is_portable(path) ==> is_safe_everywhere(path)
            },
            _ => true,
        },
{
    if is_portable(entry.name) {
        lemma_portable(entry.name);
    }
}

/// Nothing that can be written is passed over: an entry whose name has the same parts on every
/// system is passed over exactly if the name leads out of the output directory.
pub proof fn law_only_unsafe_entries_are_passed_over(
    entry: ZipMeta,
    windows: bool,
    step: EntryStepView,
)
    requires
        is_step_for(entry, windows, step),
        is_portable(entry.name),
    ensures
        step is Skip <==> !never_climbs_out(entry.name),
{
    lemma_portable(entry.name);
}

/// What a worker is told of an entry that the archive tells of: to stop where the run is not wanted;
/// to pass it over under its own name; to make it as a directory where its name ends in a slash of
/// either kind; else to write it at its own name, with the permissions that the archive gives it.
pub proof fn law_entries_keep_name_and_permissions(
    data: Seq<u8>,
    index: nat,
    running: bool,
    windows: bool,
    step: Result<EntryStep, MojoError>,
    meta: ZipMeta,
)
    requires
        worker_step(data, index, running, windows, step),
        open_error(data) is None,
        entry_found(data, index) == Ok::<ZipMeta, Seq<char>>(meta),
    ensures
        !running ==> step matches Ok(EntryStep::Stop(_)),
        running ==> match step {
            Ok(EntryStep::WriteFile { path, unix_mode, shown }) => {
                &&& path@ == meta.name
                &&& unix_mode == meta.unix_mode
                &&& !is_folder(meta)
            },
            Ok(EntryStep::MakeDirectory { path }) => path@ == meta.name && is_folder(meta),
            Ok(EntryStep::Skip { name }) => name@ == meta.name,
            _ => false,
        },
        running && is_safe_everywhere(meta.name) ==> !(step matches Ok(EntryStep::Skip { .. })),
        running && is_unsafe_everywhere(meta.name) ==> step matches Ok(EntryStep::Skip { .. }),
{
}

/// A worker that cannot open the archive, or cannot read an entry, says so with the cause.
pub proof fn law_workers_tell_what_is_wrong(
    data: Seq<u8>,
    index: nat,
    windows: bool,
    step: Result<EntryStep, MojoError>,
)
    requires
        worker_step(data, index, true, windows, step),
    ensures
        open_error(data) matches Some(cause) ==> step matches Err(MojoError::Worker(c)) && c@
            == cause,
        open_error(data) is None ==> (entry_found(data, index) matches Err(cause)
            ==> step matches Err(MojoError::Entry { index: i, cause: c }) && i == index && c@
            == cause),
{
}

/// A name is a directory's exactly where its last character is a slash or a backslash.
pub proof fn law_directories_end_in_a_slash(name: Seq<char>, last: char)
    ensures
        names_directory(name.push(last)) <==> last == '/' || last == '\\',
        !names_directory(Seq::empty()),
{
}

/// The name that is shown for a file is the last part of its path.
pub proof fn law_the_last_part_is_shown(dir: Seq<char>, name: Seq<char>, windows: bool)
    requires
        is_plain_name(name),
        prefix_len(encode_utf8(dir + seq!['/'] + name), windows) == 0,
    ensures
        shown_name(dir + seq!['/'] + name, windows) == Some(name),
        shown_name(name, windows) == Some(name),
{
    let bytes = encode_utf8(name);
    lemma_plain_name(name, windows);
    lemma_encode_ascii('/');
    lemma_encode_concat(dir + seq!['/'], name);
    lemma_encode_concat(dir, seq!['/']);
    assert(encode_utf8(dir + seq!['/'] + name) =~= encode_utf8(dir).push(0x2f) + bytes);
    law_last_part_is_the_name(encode_utf8(dir), 0x2f, bytes, windows);
    law_a_name_is_its_own_name(bytes, windows);
    encode_utf8_valid_utf8(name);
    encode_utf8_decode_utf8(name);
}

proof fn lemma_depth(parts: Seq<Seq<char>>, depth: nat)
    requires
        forall|i: int| 0 <= i < parts.len() ==> #[trigger] parts[i] != seq!['.', '.'],
    ensures
        depth_after(parts, depth) is Some,
    decreases parts.len(),
{
    reveal_strlit("..");
    assert(".."@ =~= seq!['.', '.']);
    if parts.len() > 0 {
        assert(parts[0] != seq!['.', '.']);
        let rest = parts.drop_first();
        assert forall|i: int| 0 <= i < rest.len() implies #[trigger] rest[i] != seq!['.', '.'] by {
            assert(rest[i] == parts[i + 1]);
        }
        lemma_depth(rest, depth);
        lemma_depth(rest, depth + 1);
    }
}

proof fn lemma_free_of(parts: Seq<Seq<char>>, c: char)
    requires
        forall|i: int| 0 <= i < parts.len() ==> !(#[trigger] parts[i]).contains(c),
        c != '/',
    ensures
        !joined(parts, seq!['/']).contains(c),
    decreases parts.len(),
{
    let path = joined(parts, seq!['/']);
    if parts.len() > 0 {
        let last = parts[parts.len() - 1];
        assert(!last.contains(c));
        if parts.len() > 1 {
            let before = parts.drop_last();
            assert forall|i: int| 0 <= i < before.len() implies !(#[trigger] before[i]).contains(
                c,
            ) by {
                assert(before[i] == parts[i]);
            }
            lemma_free_of(before, c);
            let head = joined(before, seq!['/']);
            assert(path == head + seq!['/'] + last);
            assert forall|i: int| 0 <= i < path.len() implies path[i] != c by {
                if i < head.len() {
                    assert(head.contains(head[i]));
                } else if i > head.len() {
                    assert(last.contains(last[i - head.len() - 1]));
                }
            }
        }
    }
}

/// An entry whose name is made of plain names with slashes between them is written, or made as a
/// directory where one more slash stands behind them, on every system; and one whose name starts by
/// leading up is passed over.
pub proof fn law_plain_entries_are_written(
    parts: Seq<Seq<char>>,
    rest: Seq<char>,
    entry: ZipMeta,
    windows: bool,
    step: EntryStepView,
)
    requires
        parts.len() > 0,
        forall|i: int|
            0 <= i < parts.len() ==> is_plain_name(#[trigger] parts[i]) && !parts[i].contains('\0'),
        is_step_for(entry, windows, step),
    ensures
        entry.name == joined(parts, seq!['/']) ==> (step matches EntryStepView::WriteFile {
            path,
            unix_mode,
            ..
        } && path == entry.name && unix_mode == entry.unix_mode),
        entry.name == joined(parts, seq!['/']).push('/') ==> step == (
        EntryStepView::MakeDirectory { path: entry.name }),
        entry.name == seq!['.', '.', '/'] + rest && !rest.contains('\\') ==> step is Skip,
        entry.name == seq!['/'] + rest ==> step is Skip,
{
    let file = joined(parts, seq!['/']);
    assert forall|i: int| 0 <= i < parts.len() implies !(#[trigger] parts[i]).contains('/')
        && !parts[i].contains('\\') && !parts[i].contains('\0') && parts[i].len() > 0 && parts[i]
        != seq!['.', '.'] && !parts[i].contains(':') by {
        assert(is_plain_name(parts[i]));
    }
    lemma_free_of(parts, '\\');
    lemma_free_of(parts, '\0');
    lemma_free_of(parts, ':');
    law_parts_read_back(parts, '/');
    lemma_depth(parts, 0);
    lemma_first_index(file, '/');
    if file.len() == 0 || file[0] == '/' {
        assert(split_on(file, '/')[0].len() == 0);
    }
    if file.len() > 1 && file[1] == ':' {
        assert(file.contains(file[1]));
    }
    lemma_portable(file);
    assert(never_climbs_out(file));
    let last = parts[parts.len() - 1];
    assert(file.last() == last.last());
    assert(file.contains(file[file.len() - 1]));
    assert(last.contains(last[last.len() - 1]));
    assert(!names_directory(file));
    // As a directory.
    let none = Seq::<char>::empty();
    let whole = parts.push(none);
    let dir = file.push('/');
    assert(whole.drop_last() =~= parts);
    assert(joined(whole, seq!['/']) =~= dir);
    assert forall|i: int| 0 <= i < whole.len() implies !(#[trigger] whole[i]).contains('/')
        && whole[i] != seq!['.', '.'] by {
        if i < parts.len() {
            assert(whole[i] == parts[i]);
        } else {
            assert(whole[i] == none);
        }
    }
    law_parts_read_back(whole, '/');
    lemma_depth(whole, 0);
    assert forall|i: int| 0 <= i < dir.len() implies dir[i] != '\\' && dir[i] != '\0' && dir[i]
        != ':' by {
        if i < file.len() {
            assert(file.contains(file[i]));
        }
    }
    assert(dir[0] == file[0]);
    lemma_portable(dir);
    assert(never_climbs_out(dir));
    // Leading up.
    let up = seq!['.', '.', '/'] + rest;
    if entry.name == up && !rest.contains('\\') {
        reveal_strlit("..");
        assert(".."@ =~= seq!['.', '.']);
        lemma_first_index_is(up, '/', 2);
        assert(split_on(up, '/')[0] =~= seq!['.', '.']);
        assert forall|i: int| 0 <= i < up.len() implies up[i] != '\\' by {
            if i >= 3 {
                assert(rest.contains(rest[i - 3]));
            }
        }
        assert(up[1] == '.');
        lemma_portable(up);
        assert(!never_climbs_out(up));
    }
    if entry.name == seq!['/'] + rest {
        assert(entry.name[0] == '/');
    }
}

/// A name may lead up again as far as it has led down before, and no further.
pub proof fn law_names_may_lead_back(a: Seq<char>, b: Seq<char>)
    requires
        is_plain_name(a),
        is_plain_name(b),
    ensures
        never_climbs_out(joined(seq![a, seq!['.', '.'], b], seq!['/'])) || a.contains('\0')
            || b.contains('\0'),
        !never_climbs_out(joined(seq![a, seq!['.', '.'], seq!['.', '.'], b], seq!['/'])),
{
    let up = seq!['.', '.'];
    let once = seq![a, up, b];
    let twice = seq![a, up, up, b];
    reveal_strlit("..");
    reveal_strlit(".");
    reveal_strlit("");
    assert(".."@ =~= up);
    assert("."@ =~= seq!['.']);
    assert(!up.contains('/')) by {
        assert(up[0] == '.' && up[1] == '.');
    }
    assert forall|i: int| 0 <= i < once.len() implies !(#[trigger] once[i]).contains('/') by {}
    assert forall|i: int| 0 <= i < twice.len() implies !(#[trigger] twice[i]).contains('/') by {}
    law_parts_read_back(once, '/');
    law_parts_read_back(twice, '/');
    assert(a != ""@ && a != "."@ && b != ""@ && b != "."@) by {
        assert(""@.len() == 0);
    }
    reveal_with_fuel(depth_after, 6);
    assert(once.drop_first() =~= seq![up, b]);
    assert(seq![up, b].drop_first() =~= seq![b]);
    assert(seq![b].drop_first() =~= Seq::empty());
    assert(twice.drop_first() =~= seq![up, up, b]);
    assert(seq![up, up, b].drop_first() =~= seq![up, b]);
    let path = joined(once, seq!['/']);
    lemma_first_index(path, '/');
    if path.len() == 0 || path[0] == '/' {
        assert(split_on(path, '/')[0].len() == 0);
    }
    if !a.contains('\0') && !b.contains('\0') {
        assert(!up.contains('\0')) by {
            assert(up[0] == '.' && up[1] == '.');
        }
        assert forall|i: int| 0 <= i < once.len() implies !(#[trigger] once[i]).contains('\0') by {}
        lemma_free_of(once, '\0');
    }
}

// ---------------------------------------------------------------------------
// What files hold
// ---------------------------------------------------------------------------

/// An unpacking gave out `parts`, one after the other, with the run wanted or not as `running`
/// says, and stood at each of `states` in between.
pub open spec fn gives(
    states: Seq<Unpacking>,
    running: Seq<bool>,
    parts: Seq<Seq<u8>>,
) -> bool {
    &&& states.len() == parts.len() + 1
    &&& running.len() == parts.len()
    &&& forall|i: int|
        0 <= i < parts.len() ==> part_follows(
            states[i],
            running[i],
            Ok(Some(#[trigger] parts[i])),
            states[i + 1],
        )
}

proof fn lemma_given(
    states: Seq<Unpacking>,
    running: Seq<bool>,
    parts: Seq<Seq<u8>>,
    n: nat,
)
    requires
        gives(states, running, parts),
        n <= parts.len(),
    ensures
        states[n as int].content == states[0].content,
        states[n as int].given == states[0].given + parts.take(n as int).flatten_alt(),
    decreases n,
{
    let head = parts.take(n as int);
    if n == 0 {
        assert(states[0].given + head.flatten_alt() =~= states[0].given);
    } else {
        let m = (n - 1) as nat;
        lemma_given(states, running, parts, m);
        let part = parts[m as int];
        assert(part_follows(states[m as int], running[m as int], Ok(Some(part)), states[n as int]));
        assert(head.drop_last() =~= parts.take(m as int));
        assert(head.last() == parts[m as int]);
        assert(states[n as int].given =~= states[0].given + head.flatten_alt());
    }
}

/// The parts of an entry together are what it unpacks to, once the end is reached.
pub proof fn law_parts_are_the_entry(
    name: Seq<char>,
    content: Result<Seq<u8>, Seq<char>>,
    states: Seq<Unpacking>,
    running: Seq<bool>,
    parts: Seq<Seq<u8>>,
    running_at_end: bool,
    end: Unpacking,
)
    requires
        gives(states, running, parts),
        states[0] == unpacking_of(name, content),
        part_follows(states.last(), running_at_end, Ok(None), end),
    ensures
        content == Ok::<Seq<u8>, Seq<char>>(parts.flatten_alt()),
{
    lemma_given(states, running, parts, parts.len());
    assert(parts.take(parts.len() as int) =~= parts);
    assert(states.last().given =~= parts.flatten_alt());
}

/// A run that is wanted all along unpacks an entry that can be unpacked: a part is never an error,
/// and it is the end exactly where all bytes are given.
pub proof fn law_a_wanted_entry_is_unpacked(
    before: Unpacking,
    part: Result<Option<Seq<u8>>, MojoErrorView>,
    after: Unpacking,
)
    requires
        part_follows(before, true, part, after),
    ensures
        before.content matches Ok(content) ==> part is Ok && (part == Ok::<
            Option<Seq<u8>>,
            MojoErrorView,
        >(None) <==> before.given == content),
{
}

/// The files that stand in the output directory once each of `steps`, one for each entry of the
/// archive `data` from its first on, has been carried out: what the entries unpack to, by path.
pub open spec fn files_after(data: Seq<u8>, steps: Seq<EntryStepView>) -> Map<Seq<char>, Seq<u8>>
    decreases steps.len(),
{
    if steps.len() == 0 {
        Map::empty()
    } else {
        let before = files_after(data, steps.drop_last());
        match (steps.last(), entry_content(data, (steps.len() - 1) as nat)) {
            (EntryStepView::WriteFile { path, .. }, Ok(content)) => before.insert(path, content),
            _ => before,
        }
    }
}

/// The entry `entry` is a file, and is not passed over.
pub open spec fn is_written(entry: ZipMeta, step: EntryStepView) -> bool {
    !names_directory(entry.name) && !(step is Skip)
}

proof fn lemma_files_after(
    data: Seq<u8>,
    entries: Seq<ZipMeta>,
    windows: bool,
    steps: Seq<EntryStepView>,
)
    requires
        entries.len() == steps.len(),
        forall|i: int|
            0 <= i < entries.len() ==> is_step_for(#[trigger] entries[i], windows, steps[i])
                && entry_content(data, i as nat) is Ok,
        forall|i: int, j: int|
            0 <= i < j < entries.len() ==> #[trigger] entries[i].name != #[trigger] entries[j].name,
    ensures
        forall|i: int|
            0 <= i < entries.len() && is_written(#[trigger] entries[i], steps[i]) ==> files_after(
                data,
                steps,
            ).contains_pair(entries[i].name, entry_content(data, i as nat)->Ok_0),
        forall|path: Seq<char>| #[trigger]
            files_after(data, steps).contains_key(path) ==> exists|i: int|
                0 <= i < entries.len() && is_written(#[trigger] entries[i], steps[i])
                    && entries[i].name == path,
    decreases steps.len(),
{
    if steps.len() > 0 {
        let last = steps.len() - 1;
        let fewer = entries.drop_last();
        let sooner = steps.drop_last();
        assert forall|i: int| 0 <= i < fewer.len() implies is_step_for(
            #[trigger] fewer[i],
            windows,
            sooner[i],
        ) && entry_content(data, i as nat) is Ok by {
            assert(fewer[i] == entries[i]);
        }
        assert forall|i: int, j: int| 0 <= i < j < fewer.len() implies #[trigger] fewer[i].name
            != #[trigger] fewer[j].name by {
            assert(fewer[i] == entries[i] && fewer[j] == entries[j]);
        }
        lemma_files_after(data, fewer, windows, sooner);
        assert(is_step_for(entries[last], windows, steps[last]));
        assert forall|i: int|
            0 <= i < entries.len() && is_written(
                #[trigger] entries[i],
                steps[i],
            ) implies files_after(data, steps).contains_pair(
            entries[i].name,
            entry_content(data, i as nat)->Ok_0,
        ) by {
            if i < last {
                assert(fewer[i] == entries[i]);
                assert(entries[i].name != entries[last].name);
            }
        }
        assert forall|path: Seq<char>| #[trigger]
            files_after(data, steps).contains_key(path) implies exists|i: int|
            0 <= i < entries.len() && is_written(#[trigger] entries[i], steps[i])
                && entries[i].name == path by {
            if files_after(data, sooner).contains_key(path) {
                let i = choose|i: int|
                    0 <= i < fewer.len() && is_written(#[trigger] fewer[i], sooner[i])
                        && fewer[i].name == path;
                assert(is_written(entries[i], steps[i]));
            } else {
                assert(is_written(entries[last], steps[last]));
            }
        }
    }
}

/// A run that got everything done leaves, at the name of each file that is not passed over, what
/// the entry unpacks to, and no other file. No two entries may have one name.
pub proof fn law_a_finished_run_leaves_the_entries(
    data: Seq<u8>,
    entries: Seq<ZipMeta>,
    windows: bool,
    steps: Seq<EntryStepView>,
    path: Seq<char>,
)
    requires
        entries.len() == steps.len(),
        forall|i: int|
            0 <= i < entries.len() ==> is_step_for(#[trigger] entries[i], windows, steps[i])
                && entry_content(data, i as nat) is Ok,
        forall|i: int, j: int|
            0 <= i < j < entries.len() ==> #[trigger] entries[i].name != #[trigger] entries[j].name,
    ensures
        files_after(data, steps).contains_key(path) <==> exists|i: int|
            0 <= i < entries.len() && is_written(#[trigger] entries[i], steps[i])
                && entries[i].name == path,
        forall|i: int|
            0 <= i < entries.len() && is_written(#[trigger] entries[i], steps[i]) ==> files_after(
                data,
                steps,
            )[entries[i].name] == entry_content(data, i as nat)->Ok_0,
{
    lemma_files_after(data, entries, windows, steps);
}

// ---------------------------------------------------------------------------
// Stopping
// ---------------------------------------------------------------------------

/// An unpacking that is no longer wanted goes on for fewer than 262144 bytes more than one part:
/// while it does, the bytes since the last look add up, and from that number on no part comes.
pub proof fn law_an_unwanted_unpacking_stops(
    before: Unpacking,
    part: Result<Option<Seq<u8>>, MojoErrorView>,
    after: Unpacking,
)
    requires
        part_follows(before, false, part, after),
    ensures
        before.since_check >= 262144 ==> part is Err && after == before,
        part matches Ok(Some(bytes)) ==> {
            &&& before.since_check < 262144
            &&& 0 < bytes.len() <= 65536
            &&& after.since_check == before.since_check + bytes.len()
            &&& after.given == before.given + bytes
        },
{
}

/// A part that is an error says what is wrong, under the name of the entry: that the run is no
/// longer wanted, or why the entry cannot be unpacked.
pub proof fn law_errors_name_the_entry(
    before: Unpacking,
    running: bool,
    error: MojoErrorView,
    after: Unpacking,
)
    requires
        part_follows(before, running, Err(error), after),
    ensures
        error matches MojoErrorView::Unpack { name, cause } && name == before.name && (if !running
            && before.since_check >= 262144 {
            cause == "cancelled"@
        } else {
            before.content == Err::<Seq<u8>, Seq<char>>(cause)
        }),
{
}

/// The bytes of an entry come in order, each once: a part starts where those given out end.
pub proof fn law_parts_come_in_order(
    before: Unpacking,
    running: bool,
    bytes: Seq<u8>,
    after: Unpacking,
    content: Seq<u8>,
    i: int,
)
    requires
        part_follows(before, running, Ok(Some(bytes)), after),
        before.content == Ok::<Seq<u8>, Seq<char>>(content),
        0 <= i < bytes.len(),
    ensures
        before.given.len() + bytes.len() <= content.len(),
        bytes[i] == content[before.given.len() + i],
        after.content == before.content,
{
}

} // verus!
