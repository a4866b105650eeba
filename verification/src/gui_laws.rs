//! What holds of the state behind the window.

use vstd::prelude::*;

use crate::gui::{after_event, after_events, fresh_app, is_active, level_of, started};
use crate::gui::{stopping, AppView, EventView, LogLevel, State, MAX_LOG_LINES};

verus! {

/// The state is one that the window can get to: the worker is to go on exactly while the window
/// says so, it is not asked to stop at the same time, and the log is not overfull.
pub open spec fn is_sound(app: AppView) -> bool {
    &&& app.running_flag == (app.state == State::Running)
    &&& !(app.running_flag && app.cancelled_flag)
    &&& app.log.len() <= MAX_LOG_LINES
}

/// The window starts out sound, and stays so whatever happens.
pub proof fn law_state_stays_sound(app: AppView, events: Seq<EventView>, windows: bool)
    ensures
        is_sound(fresh_app(windows)),
        is_sound(started(app)),
        is_sound(app) ==> is_sound(stopping(app)),
        is_sound(app) ==> is_sound(after_events(app, events)),
    decreases events.len(),
{
    if events.len() > 0 {
        law_state_stays_sound(app, events.drop_last(), windows);
    }
}

/// Where no worker is at work, only the kind of the installer can change.
pub proof fn law_late_events_are_ignored(app: AppView, events: Seq<EventView>)
    requires
        !is_active(app),
    ensures
        after_events(app, events) == (AppView {
            detected_kind: after_events(app, events).detected_kind,
            ..app
        }),
    decreases events.len(),
{
    if events.len() > 0 {
        law_late_events_are_ignored(app, events.drop_last());
    }
}

/// The kind of the installer is taken note of in every state.
pub proof fn law_detection_is_noted_in_every_state(app: AppView, event: EventView)
    ensures
        event matches EventView::Detected(kind) ==> after_event(app, event) == (AppView {
            detected_kind: Some(kind),
            ..app
        }),
        !(event is Detected) ==> after_event(app, event).detected_kind == app.detected_kind,
{
}

/// The end of a worker ends the run, whether it was asked to stop or not.
pub proof fn law_the_end_of_a_worker_ends_the_run(app: AppView, event: EventView)
    requires
        is_active(app),
    ensures
        match event {
            EventView::Done { .. } => after_event(app, event).state == State::Done,
            EventView::Failed(_) => after_event(app, event).state == State::Failed,
            EventView::Cancelled => after_event(app, event).state == State::Cancelled,
            _ => after_event(app, event).state == app.state,
        },
        event is Done || event is Failed || event is Cancelled ==> !after_event(
            app,
            event,
        ).running_flag,
{
}

/// The last lines of `all`, as many as the log keeps.
pub open spec fn latest(all: Seq<(LogLevel, Seq<char>)>) -> Seq<(LogLevel, Seq<char>)> {
    if all.len() <= MAX_LOG_LINES {
        all
    } else {
        all.skip(all.len() - MAX_LOG_LINES)
    }
}

/// The events that add `lines` to the log.
pub open spec fn log_events(lines: Seq<Seq<char>>) -> Seq<EventView> {
    lines.map_values(|line: Seq<char>| EventView::Log(line))
}

/// The log holds the latest lines: of all that came while a worker was at work, as many as it
/// keeps, in order.
pub proof fn law_the_log_keeps_the_latest_lines(app: AppView, lines: Seq<Seq<char>>)
    requires
        is_active(app),
        app.log.len() <= MAX_LOG_LINES,
    ensures
        after_events(app, log_events(lines)).log == latest(
            app.log + lines.map_values(|line: Seq<char>| (level_of(line), line)),
        ),
        after_events(app, log_events(lines)).state == app.state,
    decreases lines.len(),
{
    let leveled = |line: Seq<char>| (level_of(line), line);
    let all = app.log + lines.map_values(leveled);
    if lines.len() == 0 {
        assert(all =~= app.log);
    } else {
        let before = lines.drop_last();
        law_the_log_keeps_the_latest_lines(app, before);
        let earlier = app.log + before.map_values(leveled);
        assert(log_events(lines).drop_last() =~= log_events(before));
        assert(all =~= earlier.push(leveled(lines.last())));
        assert(after_events(app, log_events(lines)).log =~= latest(all));
    }
}

/// A new extraction starts with an empty log and no counts, and keeps what the user entered.
pub proof fn law_a_new_run_starts_clean(app: AppView)
    ensures
        started(app).log.len() == 0,
        started(app).files_done == 0 && started(app).files_total == 0,
        started(app).error.len() == 0 && started(app).summary.len() == 0,
        started(app).installer_path == app.installer_path,
        started(app).output_dir == app.output_dir,
        started(app).force_overwrite == app.force_overwrite,
        started(app).last_output_dir == app.last_output_dir,
{
}

} // verus!
