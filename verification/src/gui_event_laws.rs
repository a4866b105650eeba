//! What the events of a worker and the choices of the user do to the window.

use vstd::prelude::*;
use vstd::utf8::encode_utf8;

use crate::gui::{
    after_event, after_events, fresh_app, is_active, is_blank, level_of, mentions,
    requested_output, started, stopping, with_default_output, with_installer, AppView, EventView,
    LogLevel, State, REPAINT_INTERVAL_MILLIS,
};
use crate::inno::is_written;
use crate::inno_laws::{has_ink, lemma_has_ink};
use crate::numbers::decimal;
use crate::paths::default_output;
use crate::text::{ascii_lower, contains_run, occurs_at};
use crate::utf8::lossy_text;

verus! {

// ---------------------------------------------------------------------------
// Events
// ---------------------------------------------------------------------------

/// Events that come together do what they do one after the other, and none is lost.
pub proof fn law_events_follow_each_other(
    app: AppView,
    a: Seq<EventView>,
    b: Seq<EventView>,
    event: EventView,
)
    ensures
        after_events(app, a + b) == after_events(after_events(app, a), b),
        after_events(app, seq![event]) == after_event(app, event),
        after_events(app, Seq::empty()) == app,
    decreases b.len(),
{
    reveal_with_fuel(after_events, 2);
    assert(seq![event].drop_last() =~= Seq::empty());
    assert(seq![event].last() == event);
    if b.len() == 0 {
        assert(a + b =~= a);
    } else {
        assert((a + b).drop_last() =~= a + b.drop_last());
        assert((a + b).last() == b.last());
        law_events_follow_each_other(app, a, b.drop_last(), event);
    }
}

/// Progress is shown as the worker tells it, the name of a file stays until another one comes, and
/// nothing else changes.
pub proof fn law_progress_is_shown(
    app: AppView,
    files_done: u64,
    files_total: u64,
    current_file: Option<Seq<char>>,
)
    requires
        is_active(app),
    ensures
        ({
            let after = after_event(
                app,
                EventView::Progress { files_done, files_total, current_file },
            );
            &&& after.files_done == files_done
            &&& after.files_total == files_total
            &&& current_file matches Some(name) ==> after.current_file == name
            &&& current_file is None ==> after.current_file == app.current_file
            &&& after == (AppView {
                files_done: after.files_done,
                files_total: after.files_total,
                current_file: after.current_file,
                ..app
            })
        }),
{
}

/// The end of a worker is told with what it brought: the directory and the number of files of an
/// extraction that is done, and the message of one that failed. The log stays.
pub proof fn law_the_end_is_told(
    app: AppView,
    elapsed: Seq<char>,
    file_count: nat,
    output_dir: Seq<u8>,
    message: Seq<char>,
)
    requires
        is_active(app),
    ensures
        ({
            let done = after_event(app, EventView::Done { elapsed, file_count, output_dir });
            let failed = after_event(app, EventView::Failed(message));
            let cancelled = after_event(app, EventView::Cancelled);
            &&& done.last_output_dir == Some(output_dir)
            &&& done.summary == "✓ Successfully extracted "@ + decimal(file_count)
                + " files in "@ + elapsed + " seconds."@
            &&& done == (AppView {
                state: State::Done,
                last_output_dir: done.last_output_dir,
                summary: done.summary,
                running_flag: false,
                ..app
            })
            &&& failed.error == message
            &&& failed == (AppView {
                state: State::Failed,
                error: failed.error,
                running_flag: false,
                ..app
            })
            &&& cancelled == (AppView { state: State::Cancelled, running_flag: false, ..app })
        }),
{
}

/// A line goes to the end of the log, and the oldest line makes way only where the log holds a
/// thousand lines already.
pub proof fn law_lines_are_logged(app: AppView, line: Seq<char>)
    requires
        is_active(app),
    ensures
        ({
            let after = after_event(app, EventView::Log(line));
            &&& after.log.len() > 0
            &&& after.log.last().1 == line
            &&& after.log.last().0 == level_of(line)
            &&& app.log.len() < 1000 ==> after.log.drop_last() == app.log
            &&& app.log.len() >= 1000 ==> after.log.drop_last() == app.log.drop_first()
            &&& after == (AppView { log: after.log, ..app })
        }),
{
    let after = after_event(app, EventView::Log(line));
    if app.log.len() < 1000 {
        assert(after.log.drop_last() =~= app.log);
    } else {
        assert(after.log.drop_last() =~= app.log.drop_first());
    }
}

/// The window is repainted some thirty times a second at most.
pub proof fn law_repaints_are_apart()
    ensures
        REPAINT_INTERVAL_MILLIS == 32,
{
}

// ---------------------------------------------------------------------------
// Levels
// ---------------------------------------------------------------------------

/// Capital letters and small ones are the same to a search, and other characters only the same as
/// themselves.
pub proof fn law_lower_case(c: char)
    ensures
        'A' <= c <= 'Z' ==> ascii_lower(c) as int == c as int + 32,
        !('A' <= c <= 'Z') ==> ascii_lower(c) == c,
{
}

/// `line` holds `word` from `at` on, in capital letters or small ones.
pub open spec fn says_at(line: Seq<char>, word: Seq<char>, at: int) -> bool {
    &&& 0 <= at <= line.len() - word.len()
    &&& forall|i: int|
        0 <= i < word.len() ==> ascii_lower(#[trigger] line[at + i]) == word[i]
}

/// `line` holds `word` somewhere, in capital letters or small ones.
pub open spec fn says(line: Seq<char>, word: Seq<char>) -> bool {
    exists|at: int| says_at(line, word, at)
}

proof fn lemma_says(line: Seq<char>, word: Seq<char>)
    ensures
        says(line, word) == mentions(line, word),
{
    let lower = line.map_values(|c: char| ascii_lower(c));
    if says(line, word) {
        let at = choose|at: int| says_at(line, word, at);
        assert forall|i: int| 0 <= i < word.len() implies lower.subrange(
            at,
            at + word.len(),
        )[i] == word[i] by {
            assert(lower[at + i] == ascii_lower(line[at + i]));
        }
        assert(lower.subrange(at, at + word.len()) =~= word);
        assert(occurs_at(lower, word, at));
    }
    if contains_run(lower, word) {
        let at = choose|at: int| occurs_at(lower, word, at);
        assert forall|i: int| 0 <= i < word.len() implies ascii_lower(#[trigger] line[at + i])
            == word[i] by {
            assert(lower[at + i] == lower.subrange(at, at + word.len())[i]);
        }
        assert(says_at(line, word, at));
    }
}

/// A line that starts with a mark is what the mark says; any other is an error if it says so in one
/// of three words, in capital letters or small ones, else a warning if it says so in one of three
/// others, and else a plain line.
pub proof fn law_levels(line: Seq<char>)
    ensures
        ({
            let level = level_of(line);
            let success = line.len() > 0 && line[0] == '✓';
            let cross = line.len() > 0 && line[0] == '✗';
            let mark = line.len() > 0 && line[0] == '⚠';
            let errors = says(line, "error"@) || says(line, "failed"@) || says(line, "abort"@);
            let warnings = says(line, "warn"@) || says(line, "warning"@) || says(
                line,
                "skipping"@,
            );
            &&& level == LogLevel::Success <==> success
            &&& level == LogLevel::Error <==> cross || !success && !mark && errors
            &&& level == LogLevel::Warning <==> mark || !success && !cross && !errors && warnings
        }),
{
    lemma_says(line, "error"@);
    lemma_says(line, "failed"@);
    lemma_says(line, "abort"@);
    lemma_says(line, "warning"@);
    lemma_says(line, "warn"@);
    lemma_says(line, "skipping"@);
}

// ---------------------------------------------------------------------------
// Choices
// ---------------------------------------------------------------------------

/// An extraction goes where the output field says, to the letter, and to the default directory of
/// the installer where the field holds nothing but white space.
pub proof fn law_output_goes_where_it_is_asked(app: AppView)
    ensures
        has_ink(app.output_dir) ==> requested_output(app) == encode_utf8(app.output_dir),
        !has_ink(app.output_dir) ==> requested_output(app) == default_output(
            encode_utf8(app.installer_path),
            app.windows,
        ),
{
    lemma_has_ink(app.output_dir);
    assert(is_written(app.output_dir) == !is_blank(app.output_dir));
}

/// Choosing an installer fills in both fields and changes nothing else.
pub proof fn law_choosing_an_installer(app: AppView, path: Seq<u8>)
    ensures
        with_installer(app, path).installer_path == lossy_text(path),
        with_installer(app, path).output_dir == lossy_text(default_output(path, app.windows)),
        with_installer(app, path) == (AppView {
            installer_path: with_installer(app, path).installer_path,
            output_dir: with_installer(app, path).output_dir,
            ..app
        }),
        with_default_output(app).output_dir == lossy_text(
            default_output(encode_utf8(app.installer_path), app.windows),
        ),
        with_default_output(app) == (AppView {
            output_dir: with_default_output(app).output_dir,
            ..app
        }),
{
}

/// Asking to stop leaves everything on display as it is, and the worker has to be waited for.
pub proof fn law_stopping_keeps_the_display(app: AppView)
    ensures
        stopping(app).state == State::Cancelling,
        is_active(stopping(app)),
        !stopping(app).running_flag,
        stopping(app).cancelled_flag,
        stopping(app) == (AppView {
            state: State::Cancelling,
            running_flag: false,
            cancelled_flag: true,
            ..app
        }),
        started(app).state == State::Running,
        started(app).running_flag,
        !started(app).cancelled_flag,
        started(app).detected_kind == app.detected_kind,
        started(app).windows == app.windows,
{
}

/// A window that was just opened waits, with nothing entered and nothing on display.
pub proof fn law_a_new_window_is_empty(windows: bool)
    ensures
        fresh_app(windows).state == State::Idle,
        fresh_app(windows).installer_path.len() == 0,
        fresh_app(windows).output_dir.len() == 0,
        fresh_app(windows).log.len() == 0,
        fresh_app(windows).last_output_dir is None,
        fresh_app(windows).detected_kind is None,
        !fresh_app(windows).force_overwrite,
        !fresh_app(windows).running_flag,
        fresh_app(windows).windows == windows,
{
}

} // verus!
