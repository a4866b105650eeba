//! Inno Setup installers, which the `innoextract` program unpacks.

use vstd::prelude::*;

use crate::numbers::{counted, decimal, decimal_text, lemma_counted};
use crate::split::{lines_of, split_lines};
use crate::text::{chars_of, skip_leading, string_of, texts, trim, trim_start, trimmed};
use crate::text::{trimmed_start, without_leading};
use crate::utf8::{lossy_text, utf8_lossy};

verus! {

/// The exit code of a Windows program that Ctrl-C stopped.
pub const STATUS_CONTROL_C_EXIT: i32 = -1073741510;

// ---------------------------------------------------------------------------
// Listing
// ---------------------------------------------------------------------------

/// `line` holds something but white space.
pub open spec fn is_written(line: Seq<char>) -> bool {
    trimmed(line).len() > 0
}

/// The lines of a listing: all that the program wrote to its output, and what it wrote to its
/// error stream without the blank lines.
pub open spec fn listing(stdout: Seq<u8>, stderr: Seq<u8>) -> Seq<Seq<char>> {
    lines_of(lossy_text(stdout)) + lines_of(lossy_text(stderr)).filter(
        |line: Seq<char>| is_written(line),
    )
}

/// The lines of a listing, from what `innoextract --list` wrote.
pub fn list_lines(stdout: &[u8], stderr: &[u8]) -> (lines: Vec<String>)
    ensures
        texts(lines@) == listing(stdout@, stderr@),
{
    let out_chars = chars_of(utf8_lossy(stdout).as_str());
    let mut lines = split_lines(out_chars.as_slice());
    let err_chars = chars_of(utf8_lossy(stderr).as_str());
    let more = split_lines(err_chars.as_slice());
    let ghost start = texts(lines@);
    let ghost all = texts(more@);
    let ghost pred = |line: Seq<char>| is_written(line);
    proof {
        reveal(Seq::filter);
        assert(texts(lines@) =~= start + all.take(0).filter(pred));
    }
    for i in 0..more.len()
        invariant
            all == texts(more@),
            pred == (|line: Seq<char>| is_written(line)),
            texts(lines@) == start + all.take(i as int).filter(pred),
    {
        let ghost before = texts(lines@);
        proof {
            reveal(Seq::filter);
            assert(all.take(i + 1).drop_last() =~= all.take(i as int));
        }
        let chars = chars_of(more[i].as_str());
        assert(chars@ == all[i as int]);
        if trim(chars.as_slice()).len() > 0 {
            lines.push(more[i].clone());
            assert(texts(lines@) =~= before.push(all[i as int]));
        }
        assert(texts(lines@) =~= start + all.take(i + 1).filter(pred));
    }
    assert(all.take(all.len() as int) =~= all);
    lines
}

/// `line` is that of a file: it starts with a dash.
pub open spec fn is_file_line(line: Seq<char>) -> bool {
    trimmed_start(line).len() > 0 && trimmed_start(line)[0] == '-'
}

/// How many of `lines` are those of files.
pub open spec fn file_line_count(lines: Seq<Seq<char>>) -> nat
    decreases lines.len(),
{
    if lines.len() == 0 {
        0
    } else if is_file_line(lines.last()) {
        file_line_count(lines.drop_last()) + 1
    } else {
        file_line_count(lines.drop_last())
    }
}

/// How many files a listing tells of, if it tells of any.
pub fn known_file_count(lines: &Vec<String>) -> (count: Option<u64>)
    ensures
        match count {
            Some(n) => n > 0 && n == file_line_count(texts(lines@)),
            None => file_line_count(texts(lines@)) == 0,
        },
{
    let ghost all = texts(lines@);
    let mut count: u64 = 0;
    for i in 0..lines.len()
        invariant
            all == texts(lines@),
            count == file_line_count(all.take(i as int)) <= i,
    {
        assert(all.take(i + 1).drop_last() =~= all.take(i as int));
        let chars = chars_of(lines[i].as_str());
        assert(chars@ == all[i as int]);
        let rest = trim_start(chars.as_slice());
        if rest.len() > 0 && rest[0] == '-' {
            count = count + 1;
        }
    }
    assert(all.take(all.len() as int) =~= all);
    if count > 0 {
        Some(count)
    } else {
        None
    }
}

/// What the log says of the number of files.
pub open spec fn detected(known: Option<u64>) -> Seq<char> {
    "Detected "@ + match known {
        Some(n) => decimal(n as nat),
        None => "unknown number of"@,
    } + " file(s) to extract."@
}

/// What the log says of the number of files.
pub fn detected_text(known: Option<u64>) -> (text: String)
    ensures
        text@ == detected(known),
{
    let mut text = "Detected ".to_owned();
    match known {
        Some(n) => {
            text.append(decimal_text(n as u128).as_str());
        },
        None => {
            text.append("unknown number of");
        },
    }
    text.append(" file(s) to extract.");
    text
}

// ---------------------------------------------------------------------------
// A run of the program
// ---------------------------------------------------------------------------

/// A line that the program wrote.
#[derive(Debug)]
pub enum InnoEvent {
    /// A line of its output, which names a file.
    Filename(String),
    /// A line of its error stream.
    Stderr(String),
}

/// What a line holds.
pub ghost enum InnoEventView {
    Filename(Seq<char>),
    Stderr(Seq<char>),
}

impl View for InnoEvent {
    type V = InnoEventView;

    open spec fn view(&self) -> InnoEventView {
        match self {
            InnoEvent::Filename(line) => InnoEventView::Filename(line@),
            InnoEvent::Stderr(line) => InnoEventView::Stderr(line@),
        }
    }
}

/// What comes of a line.
#[derive(Debug)]
pub enum InnoStep {
    /// The run is no longer wanted: the program is to be stopped.
    Stop,
    /// The line tells nothing.
    Pass,
    /// One more file is extracted.
    FileDone { files_done: u64, name: String },
    /// The line is passed on.
    Log(String),
}

/// What a step holds.
pub ghost enum InnoStepView {
    Stop,
    Pass,
    FileDone { files_done: u64, name: Seq<char> },
    Log(Seq<char>),
}

impl View for InnoStep {
    type V = InnoStepView;

    open spec fn view(&self) -> InnoStepView {
        match self {
            InnoStep::Stop => InnoStepView::Stop,
            InnoStep::Pass => InnoStepView::Pass,
            InnoStep::FileDone { files_done, name } => InnoStepView::FileDone {
                files_done: *files_done,
                name: name@,
            },
            InnoStep::Log(line) => InnoStepView::Log(line@),
        }
    }
}

/// The file that a line of output names: the line without the white space around it, the dashes
/// before it and the white space between them.
pub open spec fn named_file(line: Seq<char>) -> Seq<char> {
    trimmed(without_leading(trimmed(line), '-'))
}

/// What comes of `event`, after `count` files were extracted.
pub open spec fn step_of(event: InnoEventView, running: bool, count: u64) -> InnoStepView {
    if !running {
        InnoStepView::Stop
    } else {
        match event {
            InnoEventView::Stderr(line) => InnoStepView::Log(line),
            InnoEventView::Filename(line) => if named_file(line).len() == 0 {
                InnoStepView::Pass
            } else {
                InnoStepView::FileDone { files_done: counted(count + 1), name: named_file(line) }
            },
        }
    }
}

/// How many files are extracted after `step`.
pub open spec fn count_after(step: InnoStepView, count: u64) -> u64 {
    match step {
        InnoStepView::FileDone { files_done, .. } => files_done,
        _ => count,
    }
}

/// A run of the program.
#[derive(Debug)]
pub struct InnoRun {
    file_count: u64,
}

impl InnoRun {
    /// How many files are extracted.
    pub closed spec fn count(&self) -> u64 {
        self.file_count
    }

    /// A run before its first line.
    pub fn new() -> (run: Self)
        ensures
            run.count() == 0,
    {
        InnoRun { file_count: 0 }
    }

    /// How many files are extracted.
    pub fn file_count(&self) -> (count: u64)
        ensures
            count == self.count(),
    {
        self.file_count
    }

    /// Takes one line. A run that is not wanted (`running` is false) is stopped.
    pub fn step(&mut self, event: InnoEvent, running: bool) -> (step: InnoStep)
        ensures
            step@ == step_of(event@, running, old(self).count()),
            final(self).count() == count_after(step@, old(self).count()),
    {
        if !running {
            return InnoStep::Stop;
        }
        match event {
            InnoEvent::Stderr(line) => InnoStep::Log(line),
            InnoEvent::Filename(line) => {
                let chars = chars_of(line.as_str());
                let name = trim(skip_leading(trim(chars.as_slice()), '-'));
                if name.len() == 0 {
                    return InnoStep::Pass;
                }
                self.file_count = self.file_count.wrapping_add(1);
                assert(self.file_count == counted(old(self).file_count + 1)) by {
                    reveal(counted);
                }
                InnoStep::FileDone { files_done: self.file_count, name: string_of(name) }
            },
        }
    }
}

/// How a run of the program ends.
#[derive(Debug, Clone, Copy, PartialEq, Eq, Structural)]
pub enum InnoExit {
    Finished,
    Cancelled,
    Failed { code: i32 },
}

/// What the exit of the program means. Its code is missing where a signal ended it.
pub open spec fn exit_meaning(
    success: bool,
    code: Option<i32>,
    running: bool,
    windows: bool,
) -> InnoExit {
    if success {
        InnoExit::Finished
    } else if !running || windows && code == Some(STATUS_CONTROL_C_EXIT) {
        InnoExit::Cancelled
    } else {
        InnoExit::Failed {
            code: match code {
                Some(c) => c,
                None => 0,
            },
        }
    }
}

/// What the exit of the program means. Its code is missing where a signal ended it.
pub fn classify_exit(success: bool, code: Option<i32>, running: bool, windows: bool) -> (exit:
    InnoExit)
    ensures
        exit == exit_meaning(success, code, running, windows),
        success ==> exit == InnoExit::Finished,
{
    if success {
        return InnoExit::Finished;
    }
    let code: i32 = match code {
        Some(c) => c,
        None => 0,
    };
    if !running || windows && code == STATUS_CONTROL_C_EXIT {
        InnoExit::Cancelled
    } else {
        InnoExit::Failed { code }
    }
}

// ---------------------------------------------------------------------------
// A whole run
// ---------------------------------------------------------------------------

/// The count after `events`, none of which stops the run.
pub open spec fn count_after_all(events: Seq<InnoEventView>, count: u64) -> u64
    decreases events.len(),
{
    if events.len() == 0 {
        count
    } else {
        let before = count_after_all(events.drop_last(), count);
        count_after(step_of(events.last(), true, before), before)
    }
}

/// How many of `events` name a file.
pub open spec fn files_named(events: Seq<InnoEventView>) -> nat
    decreases events.len(),
{
    if events.len() == 0 {
        0
    } else {
        files_named(events.drop_last()) + match events.last() {
            InnoEventView::Filename(line) if named_file(line).len() > 0 => 1nat,
            _ => 0,
        }
    }
}

/// A run that is not stopped counts the files that the program names.
pub proof fn law_named_files_are_counted(events: Seq<InnoEventView>)
    ensures
        count_after_all(events, 0) == counted(files_named(events) as int),
    decreases events.len(),
{
    if events.len() == 0 {
        reveal(counted);
    } else {
        law_named_files_are_counted(events.drop_last());
        let n = files_named(events.drop_last()) as int;
        lemma_counted(n, 1);
        assert(counted(counted(n) + 1) == counted(n + 1)) by {
            reveal(counted);
        }
    }
}

} // verus!
