use gogextract::detect::InstallerKind;
use gogextract::gui::{repaint_is_due, worker_event, App, GuiEvent, LogLevel, State};

fn log(line: &str) -> GuiEvent {
    GuiEvent::Log(line.to_owned())
}

fn progress(done: u64, total: u64, name: Option<&str>) -> GuiEvent {
    GuiEvent::Progress {
        files_done: done,
        files_total: total,
        current_file: name.map(|n| n.to_owned()),
    }
}

fn running() -> App {
    let mut app = App::new(false);
    app.installer_path_str = "/games/game.sh".to_owned();
    app.start_extraction().unwrap();
    app
}

#[test]
fn lines_have_levels() {
    for (line, level) in [
        ("✓ done", LogLevel::Success),
        ("✗ gone", LogLevel::Error),
        ("⚠️ Cancellation requested...", LogLevel::Warning),
        ("⚠ hm", LogLevel::Warning),
        ("An ERROR occurred", LogLevel::Error),
        ("it Failed", LogLevel::Error),
        ("aborting", LogLevel::Error),
        ("Warning: error", LogLevel::Error),
        ("WARN", LogLevel::Warning),
        ("Skipping unsafe path", LogLevel::Warning),
        ("Extracting to: /x", LogLevel::Info),
        (" ✓ not at the start", LogLevel::Info),
        ("", LogLevel::Info),
    ] {
        assert_eq!(App::parse_log_level(line), level, "{line}");
    }
}

#[test]
fn window_starts_idle() {
    let app = App::new(false);
    assert_eq!(app.state, State::Idle);
    assert!(app.installer_path_str.is_empty() && app.log.is_empty());
    assert!(!app.can_extract() && !app.can_cancel() && !app.shows_progress());
}

#[test]
fn idle_window_takes_note_of_the_kind_only() {
    let mut app = App::new(false);
    let events = vec![
        log("x"),
        progress(1, 2, Some("f")),
        GuiEvent::Failed("e".to_owned()),
        GuiEvent::Cancelled,
        GuiEvent::Detected(InstallerKind::Inno),
    ];
    assert!(app.drain_events(events));
    assert_eq!(app.state, State::Idle);
    assert_eq!(app.detected_kind, Some(InstallerKind::Inno));
    assert!(app.log.is_empty() && app.files_done == 0);
    assert!(!app.drain_events(Vec::new()));
    app.begin_detection();
    assert_eq!(app.detected_kind, None);
}

#[test]
fn extraction_runs_to_its_end() {
    let mut app = running();
    assert!(app.running_flag && !app.cancelled_flag && app.can_cancel());
    assert!(!app.can_extract());
    app.drain_events(vec![progress(1, 3, Some("a")), progress(2, 3, None), log("error!")]);
    assert_eq!((app.files_done, app.files_total), (2, 3));
    assert_eq!(app.current_file, "a");
    assert_eq!(app.log[0], (LogLevel::Error, "error!".to_owned()));
    assert_eq!(app.output_to_open(), None);
    app.handle_event(GuiEvent::Done {
        elapsed: "1.5".to_owned(),
        file_count: 3,
        output_dir: b"/out".to_vec(),
    });
    assert_eq!(app.state, State::Done);
    assert_eq!(app.summary_text, "✓ Successfully extracted 3 files in 1.5 seconds.");
    assert_eq!(app.output_to_open(), Some(b"/out".to_vec()));
    assert!(!app.running_flag && app.can_extract());
    app.handle_event(log("late"));
    assert_eq!(app.log.len(), 1);
}

#[test]
fn extraction_can_fail() {
    let mut app = running();
    app.handle_event(worker_event(Err("no space".to_owned())).unwrap());
    assert_eq!(app.state, State::Failed);
    assert_eq!(app.error_text, "no space");
    assert!(worker_event(Ok(true)).is_none());
}

#[test]
fn extraction_can_be_cancelled() {
    let mut app = running();
    let event = app.cancel_extraction();
    assert_eq!(app.state, State::Cancelling);
    assert!(!app.running_flag && app.cancelled_flag && !app.can_cancel());
    app.handle_event(event);
    assert_eq!(
        app.log[0],
        (LogLevel::Warning, "⚠️ Cancellation requested...".to_owned())
    );
    app.handle_event(worker_event(Ok(false)).unwrap());
    assert_eq!(app.state, State::Cancelled);
}

#[test]
fn log_keeps_the_latest_thousand_lines() {
    let mut app = running();
    for i in 0..1005 {
        app.handle_event(log(&format!("line {i}")));
    }
    assert_eq!(app.log.len(), 1000);
    assert_eq!(app.log[0].1, "line 5");
    assert_eq!(app.log[999].1, "line 1004");
}

#[test]
fn fields_give_the_request() {
    let mut app = App::new(false);
    app.installer_path_str = "  ".to_owned();
    assert!(app.start_extraction().is_none());
    assert_eq!(app.state, State::Idle);
    app.installer_path_str = "/games/game.sh".to_owned();
    app.force_overwrite = true;
    app.log.push_back((LogLevel::Info, "old".to_owned()));
    let request = app.start_extraction().unwrap();
    assert_eq!(request.input_file, "/games/game.sh");
    assert_eq!(request.output_dir, b"/games/game");
    assert!(request.force);
    assert!(app.log.is_empty());
    app.output_dir_str = "/other".to_owned();
    assert_eq!(app.start_extraction().unwrap().output_dir, b"/other");
}

#[test]
fn dropped_file_fills_the_fields() {
    let mut app = App::new(false);
    assert!(app.handle_dropped_files(b"/g/\xffa.sh"));
    assert_eq!(app.installer_path_str, "/g/\u{fffd}a.sh");
    assert_eq!(app.output_dir_str, "/g/\u{fffd}a");
    let mut app = running();
    assert!(!app.handle_dropped_files(b"/x"));
    assert_eq!(app.installer_path_str, "/games/game.sh");
}

#[test]
fn output_field_follows_the_installer() {
    let mut app = App::new(false);
    app.choose_installer(b"/g/a.exe");
    assert_eq!(app.output_dir_str, "/g/a");
    app.choose_output(b"/elsewhere");
    assert_eq!(app.output_dir_str, "/elsewhere");
    app.reset_output();
    assert_eq!(app.output_dir_str, "/g/a");
    app.installer_path_str = "/g/b.exe".to_owned();
    app.installer_edited(false);
    assert_eq!(app.output_dir_str, "/g/a");
    app.installer_edited(true);
    assert_eq!(app.output_dir_str, "/g/b");
    app.installer_path_str = " ".to_owned();
    app.installer_edited(true);
    assert_eq!(app.output_dir_str, "/g/b");
    app.reset_output();
    assert_eq!(app.output_dir_str, "");
}

#[test]
fn repaints_are_throttled() {
    assert!(repaint_is_due(32));
    assert!(!repaint_is_due(31));
}

#[test]
fn default_output_follows_the_system() {
    for (windows, output) in [(true, r"C:\g\a"), (false, r"./C:\g\a")] {
        let mut app = App::new(windows);
        app.choose_installer(br"C:\g\a.exe");
        assert_eq!(app.output_dir_str, output);
        app.choose_output(b"");
        app.installer_edited(true);
        assert_eq!(app.output_dir_str, output);
    }
}
