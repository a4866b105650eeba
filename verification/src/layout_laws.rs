//! What holds of the directories of an extraction, whatever fails on the disk.

use vstd::prelude::*;
use vstd::utf8::{encode_utf8, is_ascii_chars, is_ascii_chars_encode_utf8};

use crate::layout::{action_in, backup_name, first_stage, is_available, layout_for, next_stage};
use crate::layout::{staging_name, staging_text, ActionView, FinalizeErrorView, LayoutView};
use crate::layout::StageView;
use crate::numbers::decimal;
use crate::paths::{directory_of, is_separator, join_path, parent_of, BACKSLASH, DOT, SLASH};
use crate::paths_laws::{is_name, keeps_prefix, law_siblings_share_a_directory};

verus! {

// ---------------------------------------------------------------------------
// The names
// ---------------------------------------------------------------------------

proof fn lemma_decimal_digits(n: nat)
    ensures
        forall|i: int| 0 <= i < decimal(n).len() ==> '0' <= #[trigger] decimal(n)[i] <= '9',
        decimal(n).len() > 0,
    decreases n,
{
    if n >= 10 {
        lemma_decimal_digits(n / 10);
    }
}

/// `c` can stand in a name on every system.
spec fn is_plain(c: char) -> bool {
    '\0' <= c <= '\u{7f}' && c != '/' && c != '\\' && c != ':'
}

proof fn lemma_is_name(text: Seq<char>, windows: bool)
    requires
        text.len() > 2,
        forall|i: int| 0 <= i < text.len() ==> is_plain(#[trigger] text[i]),
    ensures
        is_name(encode_utf8(text), windows),
        encode_utf8(text).len() == text.len(),
{
    assert(is_ascii_chars(text));
    is_ascii_chars_encode_utf8(text);
    let bytes = encode_utf8(text);
    assert forall|i: int| 0 <= i < bytes.len() implies !is_separator(
        #[trigger] bytes[i],
        windows,
        false,
    ) by {
        assert(is_plain(text[i]));
        assert(text[i] as u8 == bytes[i]);
        assert(bytes[i] != SLASH && bytes[i] != BACKSLASH);
    }
    assert(is_plain(text[1]));
    assert(text[1] as u8 == bytes[1]);
    assert(bytes.len() != seq![DOT].len() && bytes.len() != seq![DOT, DOT].len());
}

proof fn lemma_names(pid: u32, millis: u128, windows: bool)
    ensures
        is_name(staging_name(pid, millis), windows),
        is_name(backup_name(pid, millis), windows),
        backup_name(pid, millis).len() == staging_name(pid, millis).len() + 5,
{
    reveal_strlit(".gogextract-tmp-");
    reveal_strlit("-");
    reveal_strlit("-prev");
    lemma_decimal_digits(pid as nat);
    lemma_decimal_digits(millis as nat);
    let text = staging_text(pid, millis);
    let head = ".gogextract-tmp-"@ + decimal(pid as nat);
    let start = head + "-"@;
    assert forall|i: int| 0 <= i < text.len() implies is_plain(#[trigger] text[i]) by {
        if i < 16 {
            assert(text[i] == ".gogextract-tmp-"@[i]);
        } else if i < head.len() {
            assert(text[i] == decimal(pid as nat)[i - 16]);
        } else if i >= start.len() {
            assert(text[i] == decimal(millis as nat)[i - start.len()]);
        }
    }
    lemma_is_name(text, windows);
    let longer = text + "-prev"@;
    assert forall|i: int| 0 <= i < longer.len() implies is_plain(#[trigger] longer[i]) by {
        if i < text.len() {
            assert(longer[i] == text[i]);
        }
    }
    lemma_is_name(longer, windows);
}

/// Two different names are put at two different paths in a directory.
proof fn lemma_apart(directory: Seq<u8>, a: Seq<u8>, b: Seq<u8>, windows: bool)
    requires
        is_name(a, windows),
        is_name(b, windows),
        a.len() != b.len(),
    ensures
        join_path(directory, a, windows) != join_path(directory, b, windows),
{
    assert(!is_separator(a[0], windows, false) && !is_separator(b[0], windows, false));
    assert(join_path(directory, a, windows).len() != join_path(directory, b, windows).len());
}

/// The staging directory and the backup lie next to the output directory, so that each can be
/// renamed to another, and they are two different paths. On Windows their names must not become
/// part of a prefix.
pub proof fn law_directories_are_siblings(
    output: Seq<u8>,
    force: bool,
    present: bool,
    pid: u32,
    millis: u128,
    windows: bool,
)
    requires
        windows ==> keeps_prefix(
            directory_of(output, windows),
            staging_name(pid, millis),
            windows,
        ) && keeps_prefix(directory_of(output, windows), backup_name(pid, millis), windows),
    ensures
        ({
            let layout = layout_for(output, force, present, pid, millis, windows);
            &&& parent_of(layout.staging, windows) == Some(directory_of(output, windows))
            &&& layout.backup matches Some(backup) ==> parent_of(backup, windows) == Some(
                directory_of(output, windows),
            ) && backup != layout.staging
        }),
{
    lemma_names(pid, millis, windows);
    law_siblings_share_a_directory(output, staging_name(pid, millis), windows);
    law_siblings_share_a_directory(output, backup_name(pid, millis), windows);
    lemma_apart(
        directory_of(output, windows),
        staging_name(pid, millis),
        backup_name(pid, millis),
        windows,
    );
}

// ---------------------------------------------------------------------------
// The disk
// ---------------------------------------------------------------------------

/// An action on a disk, which maps a path to what is there, failed for the reason given or
/// succeeded. A renaming that fails changes nothing; a removal that fails may leave a part.
pub open spec fn acted<T>(
    disk: Map<Seq<u8>, T>,
    action: ActionView,
    failure: Option<Seq<char>>,
    after: Map<Seq<u8>, T>,
) -> bool {
    match (action, failure) {
        (ActionView::Rename { from, to }, None) => disk.contains_key(from) && after == disk.remove(
            from,
        ).insert(to, disk[from]),
        (ActionView::Rename { .. }, Some(_)) => after == disk,
        (ActionView::Remove { path }, None) => after == disk.remove(path),
        (ActionView::Remove { path }, Some(_)) => after.remove(path) == disk.remove(path),
    }
}

/// `steps` are actions that were taken from `stage` on, each with its failure if it failed and
/// the disk after it.
pub open spec fn is_run<T>(
    layout: LayoutView,
    stage: StageView,
    disk: Map<Seq<u8>, T>,
    steps: Seq<(Option<Seq<char>>, Map<Seq<u8>, T>)>,
) -> bool
    decreases steps.len(),
{
    steps.len() == 0 || {
        &&& action_in(layout, stage) matches Some(action) && acted(
            disk,
            action,
            steps[0].0,
            steps[0].1,
        )
        &&& is_run(
            layout,
            next_stage(layout, stage, steps[0].0),
            steps[0].1,
            steps.drop_first(),
        )
    }
}

/// The stage that `steps` lead to from `stage`.
pub open spec fn stage_after<T>(
    layout: LayoutView,
    stage: StageView,
    steps: Seq<(Option<Seq<char>>, Map<Seq<u8>, T>)>,
) -> StageView
    decreases steps.len(),
{
    if steps.len() == 0 {
        stage
    } else {
        stage_after(layout, next_stage(layout, stage, steps[0].0), steps.drop_first())
    }
}

/// The disk that `steps` lead to from `disk`.
pub open spec fn disk_after<T>(
    disk: Map<Seq<u8>, T>,
    steps: Seq<(Option<Seq<char>>, Map<Seq<u8>, T>)>,
) -> Map<Seq<u8>, T> {
    if steps.len() == 0 {
        disk
    } else {
        steps.last().1
    }
}

/// `disk` is one on which an output can be put in place: the staging directory is there, and
/// where there is a backup path, there is an output to move to it. The paths are different ones.
pub open spec fn is_ready<T>(layout: LayoutView, disk: Map<Seq<u8>, T>) -> bool {
    &&& disk.contains_key(layout.staging)
    &&& layout.output != layout.staging
    &&& layout.backup matches Some(backup) ==> {
        &&& disk.contains_key(layout.output)
        &&& backup != layout.output
        &&& backup != layout.staging
    }
}

/// `disk` with the previous output moved aside.
spec fn aside<T>(layout: LayoutView, disk: Map<Seq<u8>, T>) -> Map<Seq<u8>, T> {
    match layout.backup {
        Some(backup) => disk.remove(layout.output).insert(backup, disk[layout.output]),
        None => disk,
    }
}

/// `disk` without what is at the path of the backup.
pub open spec fn unbacked<T>(layout: LayoutView, disk: Map<Seq<u8>, T>) -> Map<Seq<u8>, T> {
    match layout.backup {
        Some(backup) => disk.remove(backup),
        None => disk,
    }
}

/// What `now` is in `stage`, for a run that started on `start`.
spec fn stands<T>(
    layout: LayoutView,
    stage: StageView,
    start: Map<Seq<u8>, T>,
    now: Map<Seq<u8>, T>,
) -> bool {
    let placed = aside(layout, start).remove(layout.staging).insert(
        layout.output,
        start[layout.staging],
    );
    match stage {
        StageView::MoveAside => layout.backup is Some && now == start,
        StageView::MoveIntoPlace => now == aside(layout, start),
        StageView::Restore { .. } => layout.backup is Some && now == aside(layout, start),
        StageView::RemoveBackup => layout.backup is Some && now == placed,
        StageView::Finished => now == match layout.backup {
            Some(backup) => placed.remove(backup),
            None => placed,
        },
        StageView::Failed(FinalizeErrorView::MoveAside(_)) => layout.backup is Some && now
            == start,
        StageView::Failed(FinalizeErrorView::MoveIntoPlace(_)) => now == unbacked(layout, start),
        StageView::Failed(FinalizeErrorView::Restore { .. }) => layout.backup is Some && now
            == aside(layout, start),
        StageView::Failed(FinalizeErrorView::RemoveBackup(_)) => layout.backup matches Some(
            backup,
        ) && now.remove(backup) == placed.remove(backup),
    }
}

proof fn lemma_step<T>(
    layout: LayoutView,
    stage: StageView,
    start: Map<Seq<u8>, T>,
    now: Map<Seq<u8>, T>,
    action: ActionView,
    failure: Option<Seq<char>>,
    after: Map<Seq<u8>, T>,
)
    requires
        is_ready(layout, start),
        stands(layout, stage, start, now),
        action_in(layout, stage) == Some(action),
        acted(now, action, failure, after),
    ensures
        stands(layout, next_stage(layout, stage, failure), start, after),
{
    match (stage, failure) {
        (StageView::MoveIntoPlace, None) => {
            assert(aside(layout, start)[layout.staging] == start[layout.staging]);
        },
        (StageView::Restore { .. }, None) => {
            assert(after =~= unbacked(layout, start));
        },
        _ => {},
    }
}

proof fn lemma_run<T>(
    layout: LayoutView,
    stage: StageView,
    start: Map<Seq<u8>, T>,
    now: Map<Seq<u8>, T>,
    steps: Seq<(Option<Seq<char>>, Map<Seq<u8>, T>)>,
)
    requires
        is_ready(layout, start),
        stands(layout, stage, start, now),
        is_run(layout, stage, now, steps),
    ensures
        stands(layout, stage_after(layout, stage, steps), start, disk_after(now, steps)),
    decreases steps.len(),
{
    if steps.len() > 0 {
        let action = action_in(layout, stage).unwrap();
        lemma_step(layout, stage, start, now, action, steps[0].0, steps[0].1);
        let rest = steps.drop_first();
        lemma_run(layout, next_stage(layout, stage, steps[0].0), start, steps[0].1, rest);
        if rest.len() > 0 {
            assert(rest.last() == steps.last());
        }
    }
}

/// The output is whole at every moment: what is at its path is what was there before or all
/// that was extracted, never anything in between.
pub proof fn law_output_is_whole_at_every_moment<T>(
    layout: LayoutView,
    disk: Map<Seq<u8>, T>,
    steps: Seq<(Option<Seq<char>>, Map<Seq<u8>, T>)>,
)
    requires
        is_ready(layout, disk),
        is_run(layout, first_stage(layout), disk, steps),
    ensures
        ({
            let now = disk_after(disk, steps);
            now.contains_key(layout.output) ==> now[layout.output] == disk[layout.staging] || (
            disk.contains_key(layout.output) && now[layout.output] == disk[layout.output])
        }),
{
    lemma_run(layout, first_stage(layout), disk, disk, steps);
    let now = disk_after(disk, steps);
    if let StageView::Failed(FinalizeErrorView::RemoveBackup(_)) = stage_after(
        layout,
        first_stage(layout),
        steps,
    ) {
        let backup = layout.backup.unwrap();
        assert(now[layout.output] == now.remove(backup)[layout.output]);
    }
}

/// The previous output is not lost before the new one is in place: at every moment it is at its
/// own path or at that of the backup, or what was extracted is at the output path.
pub proof fn law_previous_output_is_not_lost<T>(
    layout: LayoutView,
    disk: Map<Seq<u8>, T>,
    steps: Seq<(Option<Seq<char>>, Map<Seq<u8>, T>)>,
)
    requires
        is_ready(layout, disk),
        is_run(layout, first_stage(layout), disk, steps),
        layout.backup is Some,
    ensures
        ({
            let now = disk_after(disk, steps);
            let backup = layout.backup.unwrap();
            ||| now.contains_key(layout.output) && now[layout.output] == disk[layout.output]
            ||| now.contains_key(backup) && now[backup] == disk[layout.output]
            ||| now.contains_key(layout.output) && now[layout.output] == disk[layout.staging]
        }),
{
    lemma_run(layout, first_stage(layout), disk, disk, steps);
    let now = disk_after(disk, steps);
    let backup = layout.backup.unwrap();
    if let StageView::Failed(FinalizeErrorView::RemoveBackup(_)) = stage_after(
        layout,
        first_stage(layout),
        steps,
    ) {
        assert(now.remove(backup).contains_key(layout.output));
        assert(now[layout.output] == now.remove(backup)[layout.output]);
    }
}

/// A run that finishes leaves what was extracted at the output path, and neither the staging
/// directory nor the backup.
pub proof fn law_a_finished_run_is_tidy<T>(
    layout: LayoutView,
    disk: Map<Seq<u8>, T>,
    steps: Seq<(Option<Seq<char>>, Map<Seq<u8>, T>)>,
)
    requires
        is_ready(layout, disk),
        is_run(layout, first_stage(layout), disk, steps),
        stage_after(layout, first_stage(layout), steps) is Finished,
    ensures
        ({
            let now = disk_after(disk, steps);
            &&& now.contains_key(layout.output)
            &&& now[layout.output] == disk[layout.staging]
            &&& !now.contains_key(layout.staging)
            &&& layout.backup matches Some(backup) ==> !now.contains_key(backup)
        }),
{
    lemma_run(layout, first_stage(layout), disk, disk, steps);
}

proof fn lemma_success_goes_on<T>(
    layout: LayoutView,
    stage: StageView,
    steps: Seq<(Option<Seq<char>>, Map<Seq<u8>, T>)>,
)
    requires
        match stage {
            StageView::MoveAside | StageView::RemoveBackup => layout.backup is Some,
            StageView::MoveIntoPlace | StageView::Finished => true,
            _ => false,
        },
        forall|i: int| 0 <= i < steps.len() ==> (#[trigger] steps[i]).0 is None,
        action_in(layout, stage_after(layout, stage, steps)) is None,
    ensures
        stage_after(layout, stage, steps) is Finished,
    decreases steps.len(),
{
    if steps.len() > 0 {
        let rest = steps.drop_first();
        assert(steps[0].0 is None);
        assert forall|i: int| 0 <= i < rest.len() implies (#[trigger] rest[i]).0 is None by {
            assert(rest[i] == steps[i + 1]);
        }
        lemma_success_goes_on(layout, next_stage(layout, stage, None), rest);
    }
}

/// An extraction to `output` that is put in place without a failure leaves what was extracted at
/// the output path, and neither the staging directory nor the backup, whatever else is on the
/// disk.
pub proof fn law_an_unhindered_run_places_the_output<T>(
    output: Seq<u8>,
    force: bool,
    present: bool,
    pid: u32,
    millis: u128,
    windows: bool,
    disk: Map<Seq<u8>, T>,
    steps: Seq<(Option<Seq<char>>, Map<Seq<u8>, T>)>,
)
    requires
        ({
            let layout = layout_for(output, force, present, pid, millis, windows);
            &&& disk.contains_key(layout.staging)
            &&& layout.output != layout.staging
            &&& layout.backup matches Some(backup) ==> disk.contains_key(output) && backup
                != output
            &&& is_run(layout, first_stage(layout), disk, steps)
            &&& action_in(layout, stage_after(layout, first_stage(layout), steps)) is None
        }),
        forall|i: int| 0 <= i < steps.len() ==> (#[trigger] steps[i]).0 is None,
    ensures
        ({
            let layout = layout_for(output, force, present, pid, millis, windows);
            let now = disk_after(disk, steps);
            &&& stage_after(layout, first_stage(layout), steps) is Finished
            &&& now.contains_key(output)
            &&& now[output] == disk[layout.staging]
            &&& !now.contains_key(layout.staging)
            &&& layout.backup matches Some(backup) ==> !now.contains_key(backup)
        }),
{
    let layout = layout_for(output, force, present, pid, millis, windows);
    lemma_names(pid, millis, windows);
    lemma_apart(
        directory_of(output, windows),
        staging_name(pid, millis),
        backup_name(pid, millis),
        windows,
    );
    lemma_success_goes_on(layout, first_stage(layout), steps);
    law_a_finished_run_is_tidy(layout, disk, steps);
}

/// Where the staging directory cannot be renamed, everything is as it was before, but for what
/// was at the path of the backup, if anything was; unless the previous output cannot be moved back
/// either: then it is at the path of the backup.
pub proof fn law_a_failed_run_restores<T>(
    layout: LayoutView,
    disk: Map<Seq<u8>, T>,
    steps: Seq<(Option<Seq<char>>, Map<Seq<u8>, T>)>,
)
    requires
        is_ready(layout, disk),
        is_run(layout, first_stage(layout), disk, steps),
    ensures
        ({
            let now = disk_after(disk, steps);
            match stage_after(layout, first_stage(layout), steps) {
                StageView::Failed(FinalizeErrorView::MoveAside(_)) => now == disk,
                StageView::Failed(FinalizeErrorView::MoveIntoPlace(_)) => now == unbacked(
                    layout,
                    disk,
                ),
                StageView::Failed(FinalizeErrorView::Restore { .. }) => layout.backup matches Some(
                    backup,
                ) && now.contains_key(backup) && now[backup] == disk[layout.output],
                _ => true,
            }
        }),
{
    lemma_run(layout, first_stage(layout), disk, disk, steps);
}

/// What is there already is refused unless it is to be replaced; a path at which there is nothing is
/// never refused.
pub proof fn law_output_that_is_there_is_kept(present: bool, force: bool)
    ensures
        is_available(present, force) <==> force || !present,
        !is_available(true, false),
{
}

/// Every failure in putting the output in place is told with its own cause, and a putting in place
/// without a failure is not told as one.
pub proof fn law_failures_keep_their_cause(
    layout: LayoutView,
    stage: StageView,
    cause: Seq<char>,
    rename_cause: Seq<char>,
)
    ensures
        next_stage(layout, StageView::MoveAside, Some(cause)) == StageView::Failed(
            FinalizeErrorView::MoveAside(cause),
        ),
        layout.backup is None ==> next_stage(layout, StageView::MoveIntoPlace, Some(cause))
            == StageView::Failed(FinalizeErrorView::MoveIntoPlace(cause)),
        layout.backup is Some ==> next_stage(
            layout,
            next_stage(layout, StageView::MoveIntoPlace, Some(rename_cause)),
            None,
        ) == StageView::Failed(FinalizeErrorView::MoveIntoPlace(rename_cause)),
        layout.backup is Some ==> next_stage(
            layout,
            next_stage(layout, StageView::MoveIntoPlace, Some(rename_cause)),
            Some(cause),
        ) == StageView::Failed(FinalizeErrorView::Restore { cause, rename_cause }),
        next_stage(layout, StageView::RemoveBackup, Some(cause)) == StageView::Failed(
            FinalizeErrorView::RemoveBackup(cause),
        ),
        !(stage is Restore) && !(stage is Failed) ==> !(next_stage(layout, stage, None) is Failed),
{
}

} // verus!
