//! The state behind the window.

use std::collections::VecDeque;

use vstd::prelude::*;
use vstd::utf8::encode_utf8;

use crate::detect::InstallerKind;
use crate::layout::option_bytes;
use crate::numbers::{decimal, decimal_text};
use crate::paths::{default_output, default_output_dir};
use crate::text::{ascii_lower, chars_of, contains_chars, contains_run, copy_bytes, lower_chars};
use crate::text::{trim, trimmed};
use crate::utf8::{lossy_text, utf8_lossy};

verus! {

/// How many lines the log keeps.
pub const MAX_LOG_LINES: usize = 1000;

/// How many milliseconds pass at least between two repaints that events ask for.
pub const REPAINT_INTERVAL_MILLIS: u128 = 32;

// ---------------------------------------------------------------------------
// Events
// ---------------------------------------------------------------------------

/// What a worker tells the window.
#[derive(Debug)]
pub enum GuiEvent {
    /// The kind of the installer is known.
    Detected(InstallerKind),
    /// How far the extraction is, and the file it is at where that is new.
    Progress { files_done: u64, files_total: u64, current_file: Option<String> },
    /// A line for the log.
    Log(String),
    /// The extraction is done. It took as many seconds as `elapsed` says, and its files are in
    /// `output_dir`.
    Done { elapsed: String, file_count: usize, output_dir: Vec<u8> },
    /// The extraction failed.
    Failed(String),
    /// The extraction was stopped.
    Cancelled,
}

/// What an event holds.
pub ghost enum EventView {
    Detected(InstallerKind),
    Progress { files_done: u64, files_total: u64, current_file: Option<Seq<char>> },
    Log(Seq<char>),
    Done { elapsed: Seq<char>, file_count: nat, output_dir: Seq<u8> },
    Failed(Seq<char>),
    Cancelled,
}

impl View for GuiEvent {
    type V = EventView;

    open spec fn view(&self) -> EventView {
        match self {
            GuiEvent::Detected(kind) => EventView::Detected(*kind),
            GuiEvent::Progress { files_done, files_total, current_file } => EventView::Progress {
                files_done: *files_done,
                files_total: *files_total,
                current_file: match current_file {
                    Some(name) => Some(name@),
                    None => None,
                },
            },
            GuiEvent::Log(line) => EventView::Log(line@),
            GuiEvent::Done { elapsed, file_count, output_dir } => EventView::Done {
                elapsed: elapsed@,
                file_count: *file_count as nat,
                output_dir: output_dir@,
            },
            GuiEvent::Failed(err) => EventView::Failed(err@),
            GuiEvent::Cancelled => EventView::Cancelled,
        }
    }
}

/// What a worker tells the window at its end. A worker that got everything done has told so
/// itself.
pub fn worker_event(result: Result<bool, String>) -> (event: Option<GuiEvent>)
    ensures
        match result {
            Ok(true) => event is None,
            Ok(false) => event matches Some(e) && e@ == EventView::Cancelled,
            Err(message) => event matches Some(e) && e@ == EventView::Failed(message@),
        },
{
    match result {
        Ok(true) => None,
        Ok(false) => Some(GuiEvent::Cancelled),
        Err(message) => Some(GuiEvent::Failed(message)),
    }
}

// ---------------------------------------------------------------------------
// The log
// ---------------------------------------------------------------------------

/// What a line of the log is about.
#[derive(Debug, Clone, Copy, PartialEq, Eq, Structural)]
pub enum LogLevel {
    Success,
    Error,
    Warning,
    Info,
}

/// `line` holds `word`, whatever the case of its ASCII letters.
pub open spec fn mentions(line: Seq<char>, word: Seq<char>) -> bool {
    contains_run(line.map_values(|c: char| ascii_lower(c)), word)
}

/// What `line` is about: its first character says so, or else the words in it.
pub open spec fn level_of(line: Seq<char>) -> LogLevel {
    if line.len() > 0 && line[0] == '✓' {
        LogLevel::Success
    } else if line.len() > 0 && line[0] == '✗' {
        LogLevel::Error
    } else if line.len() > 0 && line[0] == '⚠' {
        LogLevel::Warning
    } else if mentions(line, "error"@) || mentions(line, "failed"@) || mentions(line, "abort"@) {
        LogLevel::Error
    } else if mentions(line, "warning"@) || mentions(line, "warn"@) || mentions(
        line,
        "skipping"@,
    ) {
        LogLevel::Warning
    } else {
        LogLevel::Info
    }
}

/// What each line of a log holds.
pub open spec fn log_view(log: Seq<(LogLevel, String)>) -> Seq<(LogLevel, Seq<char>)> {
    log.map_values(|entry: (LogLevel, String)| (entry.0, entry.1@))
}

/// `log` with `line` at its end. The oldest line makes way where the log is full.
pub open spec fn logged(log: Seq<(LogLevel, Seq<char>)>, line: Seq<char>) -> Seq<
    (LogLevel, Seq<char>),
> {
    let kept = if log.len() >= MAX_LOG_LINES {
        log.drop_first()
    } else {
        log
    };
    kept.push((level_of(line), line))
}

fn mentions_word(lower: &[char], word: &str) -> (found: bool)
    ensures
        found == contains_run(lower@, word@),
{
    let needle = chars_of(word);
    contains_chars(lower, needle.as_slice())
}

// ---------------------------------------------------------------------------
// The state
// ---------------------------------------------------------------------------

/// What the window is at.
#[derive(Debug, Clone, Copy, PartialEq, Eq, Structural)]
pub enum State {
    Idle,
    Running,
    Cancelling,
    Done,
    Failed,
    Cancelled,
}

/// The state behind the window.
#[derive(Debug)]
pub struct App {
    pub state: State,
    /// The field with the path of the installer.
    pub installer_path_str: String,
    /// The field with the path to extract to.
    pub output_dir_str: String,
    /// Where the last extraction put its files.
    pub last_output_dir: Option<Vec<u8>>,
    pub force_overwrite: bool,
    /// The kind of the installer, where it is known.
    pub detected_kind: Option<InstallerKind>,
    pub current_file: String,
    pub files_done: u64,
    pub files_total: u64,
    pub summary_text: String,
    pub error_text: String,
    pub log: VecDeque<(LogLevel, String)>,
    /// The worker is to go on.
    pub running_flag: bool,
    /// The user asked to stop.
    pub cancelled_flag: bool,
    /// Paths are those of Windows.
    pub windows: bool,
}

/// What the state holds.
#[verifier::ext_equal]
pub ghost struct AppView {
    pub state: State,
    pub installer_path: Seq<char>,
    pub output_dir: Seq<char>,
    pub last_output_dir: Option<Seq<u8>>,
    pub force_overwrite: bool,
    pub detected_kind: Option<InstallerKind>,
    pub current_file: Seq<char>,
    pub files_done: u64,
    pub files_total: u64,
    pub summary: Seq<char>,
    pub error: Seq<char>,
    pub log: Seq<(LogLevel, Seq<char>)>,
    pub running_flag: bool,
    pub cancelled_flag: bool,
    /// Paths are those of Windows.
    pub windows: bool,
}

impl View for App {
    type V = AppView;

    open spec fn view(&self) -> AppView {
        AppView {
            state: self.state,
            installer_path: self.installer_path_str@,
            output_dir: self.output_dir_str@,
            last_output_dir: option_bytes(self.last_output_dir),
            force_overwrite: self.force_overwrite,
            detected_kind: self.detected_kind,
            current_file: self.current_file@,
            files_done: self.files_done,
            files_total: self.files_total,
            summary: self.summary_text@,
            error: self.error_text@,
            log: log_view(self.log@),
            running_flag: self.running_flag,
            cancelled_flag: self.cancelled_flag,
            windows: self.windows,
        }
    }
}

/// The state of a window that was just opened.
pub open spec fn fresh_app(windows: bool) -> AppView {
    AppView {
        state: State::Idle,
        installer_path: Seq::empty(),
        output_dir: Seq::empty(),
        last_output_dir: None,
        force_overwrite: false,
        detected_kind: None,
        current_file: Seq::empty(),
        files_done: 0,
        files_total: 0,
        summary: Seq::empty(),
        error: Seq::empty(),
        log: Seq::empty(),
        running_flag: false,
        cancelled_flag: false,
        windows,
    }
}

/// A worker is at work.
pub open spec fn is_active(app: AppView) -> bool {
    app.state == State::Running || app.state == State::Cancelling
}

/// What is said of an extraction that is done.
pub open spec fn summary_of(file_count: nat, elapsed: Seq<char>) -> Seq<char> {
    "✓ Successfully extracted "@ + decimal(file_count) + " files in "@ + elapsed + " seconds."@
}

/// The state after `event`. The kind of an installer is taken note of at any time; everything
/// else matters only while a worker is at work.
pub open spec fn after_event(app: AppView, event: EventView) -> AppView {
    match event {
        EventView::Detected(kind) => AppView { detected_kind: Some(kind), ..app },
        _ if !is_active(app) => app,
        EventView::Progress { files_done, files_total, current_file } => AppView {
            files_done,
            files_total,
            current_file: match current_file {
                Some(name) => name,
                None => app.current_file,
            },
            ..app
        },
        EventView::Log(line) => AppView { log: logged(app.log, line), ..app },
        EventView::Done { elapsed, file_count, output_dir } => AppView {
            state: State::Done,
            last_output_dir: Some(output_dir),
            summary: summary_of(file_count, elapsed),
            running_flag: false,
            ..app
        },
        EventView::Failed(message) => AppView {
            state: State::Failed,
            error: message,
            running_flag: false,
            ..app
        },
        EventView::Cancelled => AppView { state: State::Cancelled, running_flag: false, ..app },
    }
}

/// The state after `events`.
pub open spec fn after_events(app: AppView, events: Seq<EventView>) -> AppView
    decreases events.len(),
{
    if events.len() == 0 {
        app
    } else {
        after_event(after_events(app, events.drop_last()), events.last())
    }
}

/// What each event holds.
pub open spec fn gui_events_view(events: Seq<GuiEvent>) -> Seq<EventView> {
    events.map_values(|e: GuiEvent| e@)
}

/// `text` is blank.
pub open spec fn is_blank(text: Seq<char>) -> bool {
    trimmed(text).len() == 0
}

/// The state at the start of an extraction.
pub open spec fn started(app: AppView) -> AppView {
    AppView {
        state: State::Running,
        current_file: Seq::empty(),
        files_done: 0,
        files_total: 0,
        summary: Seq::empty(),
        error: Seq::empty(),
        log: Seq::empty(),
        running_flag: true,
        cancelled_flag: false,
        ..app
    }
}

/// Where the extraction that the fields ask for goes: the path in the output field, or the
/// default one where that is blank.
pub open spec fn requested_output(app: AppView) -> Seq<u8> {
    if is_blank(app.output_dir) {
        default_output(encode_utf8(app.installer_path), app.windows)
    } else {
        encode_utf8(app.output_dir)
    }
}

/// The state once the user asked to stop.
pub open spec fn stopping(app: AppView) -> AppView {
    AppView { state: State::Cancelling, running_flag: false, cancelled_flag: true, ..app }
}

/// The state once the installer at `path` was chosen: both fields are filled in.
pub open spec fn with_installer(app: AppView, path: Seq<u8>) -> AppView {
    AppView {
        installer_path: lossy_text(path),
        output_dir: lossy_text(default_output(path, app.windows)),
        ..app
    }
}

/// The state with the output field filled in after the installer field.
pub open spec fn with_default_output(app: AppView) -> AppView {
    AppView {
        output_dir: lossy_text(default_output(encode_utf8(app.installer_path), app.windows)),
        ..app
    }
}

/// An extraction that the user asked for.
#[derive(Debug)]
pub struct ExtractionRequest {
    pub input_file: String,
    pub output_dir: Vec<u8>,
    pub force: bool,
}

fn blank(text: &str) -> (b: bool)
    ensures
        b == is_blank(text@),
{
    let chars = chars_of(text);
    trim(chars.as_slice()).len() == 0
}

impl App {
    /// The state of a window that was just opened.
    pub fn new(windows: bool) -> (app: Self)
        ensures
            app@ == fresh_app(windows),
    {
        let app = App {
            state: State::Idle,
            installer_path_str: String::new(),
            output_dir_str: String::new(),
            last_output_dir: None,
            force_overwrite: false,
            detected_kind: None,
            current_file: String::new(),
            files_done: 0,
            files_total: 0,
            summary_text: String::new(),
            error_text: String::new(),
            log: VecDeque::new(),
            running_flag: false,
            cancelled_flag: false,
            windows,
        };
        assert(app@ =~= fresh_app(windows));
        app
    }

    /// What a line of the log is about.
    pub fn parse_log_level(line: &str) -> (level: LogLevel)
        ensures
            level == level_of(line@),
    {
        let chars = chars_of(line);
        if chars.len() > 0 {
            if chars[0] == '✓' {
                return LogLevel::Success;
            }
            if chars[0] == '✗' {
                return LogLevel::Error;
            }
            if chars[0] == '⚠' {
                return LogLevel::Warning;
            }
        }
        let lower = lower_chars(chars.as_slice());
        let lower = lower.as_slice();
        if mentions_word(lower, "error") || mentions_word(lower, "failed") || mentions_word(
            lower,
            "abort",
        ) {
            return LogLevel::Error;
        }
        if mentions_word(lower, "warning") || mentions_word(lower, "warn") || mentions_word(
            lower,
            "skipping",
        ) {
            return LogLevel::Warning;
        }
        LogLevel::Info
    }

    /// Adds a line to the log.
    fn add_line(&mut self, line: String)
        ensures
            final(self)@ == (AppView { log: logged(old(self)@.log, line@), ..old(self)@ }),
    {
        let ghost before = log_view(self.log@);
        if self.log.len() >= MAX_LOG_LINES {
            let _ = self.log.pop_front();
            assert(log_view(self.log@) =~= before.drop_first());
        }
        let ghost kept = log_view(self.log@);
        let level = Self::parse_log_level(line.as_str());
        self.log.push_back((level, line));
        assert(log_view(self.log@) =~= kept.push((level, line@)));
        assert(self@ =~= (AppView { log: logged(old(self)@.log, line@), ..old(self)@ }));
    }

    /// Takes one event.
    pub fn handle_event(&mut self, event: GuiEvent)
        ensures
            final(self)@ == after_event(old(self)@, event@),
    {
        if let GuiEvent::Detected(kind) = event {
            self.detected_kind = Some(kind);
            return;
        }
        if self.state != State::Running && self.state != State::Cancelling {
            return;
        }
        match event {
            GuiEvent::Detected(_) => {},
            GuiEvent::Progress { files_done, files_total, current_file } => {
                self.files_done = files_done;
                self.files_total = files_total;
                if let Some(name) = current_file {
                    self.current_file = name;
                }
            },
            GuiEvent::Log(line) => {
                self.add_line(line);
            },
            GuiEvent::Done { elapsed, file_count, output_dir } => {
                self.state = State::Done;
                self.last_output_dir = Some(output_dir);
                let mut summary = "✓ Successfully extracted ".to_owned();
                summary.append(decimal_text(file_count as u128).as_str());
                summary.append(" files in ");
                summary.append(elapsed.as_str());
                summary.append(" seconds.");
                self.summary_text = summary;
                self.running_flag = false;
            },
            GuiEvent::Failed(message) => {
                self.state = State::Failed;
                self.error_text = message;
                self.running_flag = false;
            },
            GuiEvent::Cancelled => {
                self.state = State::Cancelled;
                self.running_flag = false;
            },
        }
    }

    /// Takes the events that have come, in order, and says whether there were any.
    pub fn drain_events(&mut self, events: Vec<GuiEvent>) -> (repaint: bool)
        ensures
            final(self)@ == after_events(old(self)@, gui_events_view(events@)),
            repaint == (events@.len() > 0),
    {
        let ghost all = gui_events_view(events@);
        let repaint = events.len() > 0;
        for event in it: events.into_iter()
            invariant
                all == gui_events_view(it.seq()),
                self@ == after_events(old(self)@, all.take(it.index())),
        {
            proof {
                let n = it.index();
                assert(all.take(n + 1).drop_last() =~= all.take(n));
            }
            self.handle_event(event);
        }
        assert(all.take(all.len() as int) =~= all);
        repaint
    }

    /// Starts an extraction, if the fields ask for one.
    pub fn start_extraction(&mut self) -> (request: Option<ExtractionRequest>)
        ensures
            match request {
                Some(request) => {
                    &&& !is_blank(old(self)@.installer_path)
                    &&& request.input_file@ == old(self)@.installer_path
                    &&& request.output_dir@ == requested_output(old(self)@)
                    &&& request.force == old(self)@.force_overwrite
                    &&& final(self)@ == started(old(self)@)
                },
                None => is_blank(old(self)@.installer_path) && final(self)@ == old(self)@,
            },
    {
        if blank(self.installer_path_str.as_str()) {
            return None;
        }
        let input_file = self.installer_path_str.clone();
        let output_dir = if blank(self.output_dir_str.as_str()) {
            default_output_dir(input_file.as_str().as_bytes(), self.windows)
        } else {
            copy_bytes(self.output_dir_str.as_str().as_bytes())
        };
        self.state = State::Running;
        self.current_file = String::new();
        self.files_done = 0;
        self.files_total = 0;
        self.summary_text = String::new();
        self.error_text = String::new();
        self.log.clear();
        self.running_flag = true;
        self.cancelled_flag = false;
        assert(self@ =~= started(old(self)@));
        Some(ExtractionRequest { input_file, output_dir, force: self.force_overwrite })
    }

    /// Asks the worker to stop. The event is for the log, behind what the worker has sent.
    pub fn cancel_extraction(&mut self) -> (event: GuiEvent)
        ensures
            final(self)@ == stopping(old(self)@),
            event@ == EventView::Log("⚠️ Cancellation requested..."@),
    {
        self.running_flag = false;
        self.cancelled_flag = true;
        self.state = State::Cancelling;
        GuiEvent::Log("⚠️ Cancellation requested...".to_owned())
    }

    /// Takes the installer at `path`.
    pub fn choose_installer(&mut self, path: &[u8])
        ensures
            final(self)@ == with_installer(old(self)@, path@),
    {
        self.installer_path_str = utf8_lossy(path);
        self.output_dir_str = utf8_lossy(default_output_dir(path, self.windows).as_slice());
    }

    /// Takes an installer that was dropped on the window, unless a worker is at work. Says
    /// whether it was taken.
    pub fn handle_dropped_files(&mut self, path: &[u8]) -> (taken: bool)
        ensures
            taken == !is_active(old(self)@),
            final(self)@ == if taken {
                with_installer(old(self)@, path@)
            } else {
                old(self)@
            },
    {
        if self.state == State::Running || self.state == State::Cancelling {
            return false;
        }
        self.choose_installer(path);
        true
    }

    /// Forgets the kind of the installer, until it is told anew.
    pub fn begin_detection(&mut self)
        ensures
            final(self)@ == (AppView { detected_kind: None, ..old(self)@ }),
    {
        self.detected_kind = None;
    }

    /// Fills in the output field after the installer field was edited, if there is a file at
    /// the path in it (`present`).
    pub fn installer_edited(&mut self, present: bool)
        ensures
            final(self)@ == if !is_blank(old(self)@.installer_path) && present {
                with_default_output(old(self)@)
            } else {
                old(self)@
            },
    {
        if !blank(self.installer_path_str.as_str()) && present {
            let dir = default_output_dir(
                self.installer_path_str.as_str().as_bytes(),
                self.windows,
            );
            self.output_dir_str = utf8_lossy(dir.as_slice());
        }
    }

    /// Takes `path` to extract to.
    pub fn choose_output(&mut self, path: &[u8])
        ensures
            final(self)@ == (AppView { output_dir: lossy_text(path@), ..old(self)@ }),
    {
        self.output_dir_str = utf8_lossy(path);
    }

    /// Goes back to the default output, or to none where no installer is given.
    pub fn reset_output(&mut self)
        ensures
            final(self)@ == if is_blank(old(self)@.installer_path) {
                AppView { output_dir: Seq::empty(), ..old(self)@ }
            } else {
                with_default_output(old(self)@)
            },
    {
        if blank(self.installer_path_str.as_str()) {
            self.output_dir_str = String::new();
            assert(self@ =~= (AppView { output_dir: Seq::empty(), ..old(self)@ }));
        } else {
            let dir = default_output_dir(
                self.installer_path_str.as_str().as_bytes(),
                self.windows,
            );
            self.output_dir_str = utf8_lossy(dir.as_slice());
        }
    }

    /// Whether an extraction can be started.
    pub fn can_extract(&self) -> (can: bool)
        ensures
            can == (!is_blank(self@.installer_path) && !self@.running_flag),
    {
        !blank(self.installer_path_str.as_str()) && !self.running_flag
    }

    /// Whether the extraction can be stopped.
    pub fn can_cancel(&self) -> (can: bool)
        ensures
            can == (self@.state == State::Running),
    {
        self.state == State::Running
    }

    /// Whether progress is shown.
    pub fn shows_progress(&self) -> (shows: bool)
        ensures
            shows == is_active(self@),
    {
        self.state == State::Running || self.state == State::Cancelling
    }

    /// The directory that can be opened: that of an extraction that is done.
    pub fn output_to_open(&self) -> (dir: Option<Vec<u8>>)
        ensures
            option_bytes(dir) == if self@.state == State::Done {
                self@.last_output_dir
            } else {
                None
            },
    {
        if self.state == State::Done {
            match &self.last_output_dir {
                Some(dir) => Some(copy_bytes(dir.as_slice())),
                None => None,
            }
        } else {
            None
        }
    }
}

/// Whether to repaint at once, `since_last` milliseconds after the last repaint.
pub fn repaint_is_due(since_last: u128) -> (due: bool)
    ensures
        due == (since_last >= REPAINT_INTERVAL_MILLIS),
{
    since_last >= REPAINT_INTERVAL_MILLIS
}

} // verus!
