use gogextract::cli::{
    can_be_mapped, cli_outcome, exit_code, run, run_cli, Args, Job, Mode, RunOutcome,
};
use gogextract::detect::{detect_installer_kind, kind_label, InstallerKind};
use gogextract::flow::{
    files_to_report, DirectFlow, DirectStep, Front, Packed, StagedFlow, StagedStep,
};
use gogextract::inno::{
    classify_exit, detected_text, known_file_count, list_lines, InnoEvent, InnoExit, InnoRun,
    InnoStep, STATUS_CONTROL_C_EXIT,
};
use gogextract::messages::unrecognised_message;
use gogextract::run_control::{
    conclude, min_chunk_size, name_is_due, progress_total, CancelGate, RunEnd,
};

#[test]
fn inno_signature_comes_first() {
    let mut data = b"PK\x03\x04".to_vec();
    data.extend_from_slice(b"MZ..Inno Setup Setup Data (6.1.0)");
    assert_eq!(detect_installer_kind(&data), Ok(InstallerKind::Inno));
}

#[test]
fn signature_is_looked_for_in_eight_mebibytes() {
    let magic = b"Inno Setup Setup Data";
    let limit = 8 * 1024 * 1024;
    let mut data = vec![0u8; limit + 100];
    let at = limit - magic.len();
    data[at..at + magic.len()].copy_from_slice(magic);
    assert_eq!(detect_installer_kind(&data), Ok(InstallerKind::Inno));
    data[at] = 0;
    data[at + 1..at + 1 + magic.len()].copy_from_slice(magic);
    assert!(detect_installer_kind(&data).is_err());
}

#[test]
fn zip_is_told_by_start_or_end() {
    assert_eq!(detect_installer_kind(b"PK\x03\x04"), Ok(InstallerKind::MojoSetup));
    let mut data = vec![b'#'; 65557];
    data[..4].copy_from_slice(b"PK\x05\x06");
    assert_eq!(detect_installer_kind(&data), Ok(InstallerKind::MojoSetup));
    data.push(b'#');
    assert!(detect_installer_kind(&data).is_err());
    for none in [b"".as_slice(), b"PK", b"xar!aaaaaaaaaaaaaaaaaaaaaaaaaaaaaa"] {
        let e = detect_installer_kind(none).unwrap_err();
        assert_eq!(
            unrecognised_message(e),
            "Unrecognised installer format — expected a MojoSetup installer (.sh/.exe) or an \
             Inno Setup executable."
        );
    }
}

#[test]
fn kinds_have_labels() {
    assert_eq!(kind_label(Some(InstallerKind::MojoSetup)), "MojoSetup");
    assert_eq!(kind_label(Some(InstallerKind::Inno)), "Inno Setup");
    assert_eq!(kind_label(Some(InstallerKind::Pkg)), "pkg");
    assert_eq!(kind_label(None), "Unknown");
}

fn args(input: bool, output: bool, force: bool, list: bool, gui: bool) -> Args {
    Args {
        input_file: if input { Some(b"in".to_vec()) } else { None },
        output_dir: if output { Some(b"out".to_vec()) } else { None },
        force,
        list,
        gui,
    }
}

#[test]
fn arguments_choose_the_mode() {
    assert!(matches!(run(args(false, false, false, false, false), true), Mode::Gui));
    assert!(matches!(run(args(true, true, true, true, true), true), Mode::Gui));
    assert!(matches!(run(args(false, false, true, false, false), true), Mode::Gui));
    assert!(matches!(run(args(false, false, false, true, false), true), Mode::Gui));
    assert!(matches!(run(args(false, true, false, false, false), true), Mode::Gui));
    for gui_built in [true, false] {
        match run(args(true, true, false, true, false), gui_built) {
            Mode::Cli { input_file, output_dir, force, list } => {
                assert_eq!(input_file, b"in");
                assert_eq!(output_dir.as_deref(), Some(b"out".as_slice()));
                assert!(!force && list);
            }
            other => panic!("{other:?}"),
        }
    }
}

#[test]
fn program_without_a_window_opens_none() {
    assert!(matches!(run(args(false, false, false, false, false), false), Mode::NoInput));
    assert!(matches!(run(args(false, false, true, true, true), false), Mode::NoInput));
    assert!(matches!(run(args(true, false, false, false, true), false), Mode::Cli { .. }));
}

#[test]
fn jobs_follow_the_kind() {
    assert_eq!(run_cli(InstallerKind::Inno, true), Job::ListInno);
    assert_eq!(run_cli(InstallerKind::Inno, false), Job::ExtractInno);
    assert_eq!(run_cli(InstallerKind::MojoSetup, true), Job::ListMojo);
    assert_eq!(run_cli(InstallerKind::MojoSetup, false), Job::ExtractMojo);
    assert_eq!(run_cli(InstallerKind::Pkg, true), Job::ListPkg);
    assert_eq!(run_cli(InstallerKind::Pkg, false), Job::ExtractPkg);
}

#[test]
fn program_exits_with_a_code() {
    assert_eq!(exit_code(Some(cli_outcome(true))), 0);
    assert_eq!(exit_code(Some(cli_outcome(false))), 130);
    assert_eq!(exit_code(Some(RunOutcome::GuiExited)), 0);
    assert_eq!(exit_code(None), 1);
}

#[test]
fn narrow_addresses_limit_the_size() {
    assert!(can_be_mapped(u64::MAX, false));
    assert!(can_be_mapped(2 * 1024 * 1024 * 1024, true));
    assert!(!can_be_mapped(2 * 1024 * 1024 * 1024 + 1, true));
}

#[test]
fn listing_joins_both_streams() {
    let lines = list_lines(b"Listing\r\n  - a\n\n  - b\xff\n", b"warn\n   \n\nlast\r");
    assert_eq!(lines, ["Listing", "  - a", "", "  - b\u{fffd}", "warn", "last\r"]);
    assert_eq!(known_file_count(&lines), Some(2));
    assert_eq!(known_file_count(&vec!["a - b".to_owned()]), None);
    assert_eq!(known_file_count(&Vec::new()), None);
    assert!(list_lines(b"", b"\n").is_empty());
}

#[test]
fn number_of_files_is_told() {
    assert_eq!(detected_text(Some(12)), "Detected 12 file(s) to extract.");
    assert_eq!(detected_text(None), "Detected unknown number of file(s) to extract.");
}

#[test]
fn named_files_are_counted() {
    let mut run = InnoRun::new();
    let line = |s: &str| InnoEvent::Filename(s.to_owned());
    match run.step(line("  -- app/a b.dat \n"), true) {
        InnoStep::FileDone { files_done, name } => {
            assert_eq!((files_done, name.as_str()), (1, "app/a b.dat"));
        }
        other => panic!("{other:?}"),
    }
    assert!(matches!(run.step(line(" - "), true), InnoStep::Pass));
    assert!(matches!(run.step(line(""), true), InnoStep::Pass));
    assert!(matches!(
        run.step(InnoEvent::Stderr(" - x".to_owned()), true),
        InnoStep::Log(s) if s == " - x"
    ));
    assert!(matches!(run.step(line("- z"), false), InnoStep::Stop));
    assert!(matches!(run.step(line("b"), true), InnoStep::FileDone { files_done: 2, .. }));
    assert_eq!(run.file_count(), 2);
}

#[test]
fn exits_are_classified() {
    assert_eq!(classify_exit(true, Some(0), false, false), InnoExit::Finished);
    assert_eq!(classify_exit(false, Some(3), true, true), InnoExit::Failed { code: 3 });
    assert_eq!(classify_exit(false, None, true, false), InnoExit::Failed { code: 0 });
    assert_eq!(classify_exit(false, Some(3), false, false), InnoExit::Cancelled);
    let code = Some(STATUS_CONTROL_C_EXIT);
    assert_eq!(STATUS_CONTROL_C_EXIT, 0xC000013Au32 as i32);
    assert_eq!(classify_exit(false, code, true, true), InnoExit::Cancelled);
    assert_eq!(
        classify_exit(false, code, true, false),
        InnoExit::Failed { code: STATUS_CONTROL_C_EXIT }
    );
}

#[test]
fn cancellation_is_noticed_in_a_large_file() {
    let mut gate = CancelGate::new();
    assert!(gate.before_read(false).is_ok());
    gate.after_read(256 * 1024 - 1);
    assert!(gate.before_read(false).is_ok());
    gate.after_read(1);
    assert!(gate.before_read(false).is_err());
    assert!(gate.before_read(true).is_ok());
    assert!(gate.before_read(false).is_ok());
}

#[test]
fn work_is_shared_out() {
    assert_eq!(min_chunk_size(100, 8), 12);
    assert_eq!(min_chunk_size(8, 8), 1);
    assert_eq!(min_chunk_size(3, 8), 1);
    assert_eq!(min_chunk_size(0, 8), 1);
}

#[test]
fn names_are_shown_ten_times_a_second() {
    assert!(name_is_due(100_000_000, 0));
    assert!(!name_is_due(99_999_999, 0));
    assert!(!name_is_due(5, 100_000_000));
}

#[test]
fn runs_are_concluded() {
    assert_eq!(conclude(RunEnd::Finished, true), RunEnd::Finished);
    assert_eq!(conclude(RunEnd::Cancelled, false), RunEnd::Cancelled);
    assert_eq!(conclude(RunEnd::Failed, true), RunEnd::Cancelled);
    assert_eq!(conclude(RunEnd::Failed, false), RunEnd::Failed);
    assert_eq!(progress_total(3, 9), 3);
    assert_eq!(progress_total(0, 9), 9);
}

fn staged(front: Front, packed: Packed, results: &[(RunEnd, bool)]) -> Vec<StagedStep> {
    let mut flow = StagedFlow::new(front, packed);
    let mut steps = vec![flow.step()];
    for (result, cancelled) in results {
        flow = flow.after(*result, *cancelled);
        steps.push(flow.step());
    }
    steps
}

const OK: (RunEnd, bool) = (RunEnd::Finished, false);

#[test]
fn staged_extraction_runs_through() {
    let end = StagedStep::End { end: RunEnd::Finished };
    let start = [StagedStep::Scan, StagedStep::Prepare, StagedStep::Announce, StagedStep::Unpack];
    let joined = |rest: &[StagedStep]| [start.as_slice(), rest].concat();
    assert_eq!(
        staged(Front::Cli, Packed::Zip, &[OK; 6]),
        joined(&[StagedStep::Place, StagedStep::Report, end])
    );
    assert_eq!(
        staged(Front::Gui, Packed::Zip, &[OK; 8]),
        joined(&[
            StagedStep::ShowAllDone { placed: false },
            StagedStep::Place,
            StagedStep::Report,
            end,
            end,
        ])
    );
    assert_eq!(
        staged(Front::Gui, Packed::Pkg, &[OK; 7]),
        joined(&[
            StagedStep::Place,
            StagedStep::ShowAllDone { placed: true },
            StagedStep::Report,
            end,
        ])
    );
}

#[test]
fn staged_extraction_is_discarded() {
    let last = |front, packed, results: &[(RunEnd, bool)]| {
        *staged(front, packed, results).last().unwrap()
    };
    let failed = StagedStep::End { end: RunEnd::Failed };
    assert_eq!(last(Front::Cli, Packed::Zip, &[(RunEnd::Failed, false)]), failed);
    assert_eq!(last(Front::Cli, Packed::Pkg, &[OK, (RunEnd::Failed, false)]), failed);
    for end in [RunEnd::Cancelled, RunEnd::Failed] {
        let results = [OK, OK, OK, (end, true)];
        assert_eq!(last(Front::Cli, Packed::Zip, &results), StagedStep::Discard { end });
    }
    let stopped = [OK, OK, OK, (RunEnd::Finished, true)];
    assert_eq!(
        last(Front::Gui, Packed::Pkg, &stopped),
        StagedStep::Discard { end: RunEnd::Cancelled }
    );
    assert_eq!(last(Front::Cli, Packed::Pkg, &stopped), StagedStep::Place);
    assert_eq!(
        last(Front::Cli, Packed::Pkg, &[OK, OK, OK, OK, (RunEnd::Failed, false), OK]),
        failed
    );
}

fn direct(force: bool, results: &[(RunEnd, bool)]) -> DirectStep {
    let mut flow = DirectFlow::new(force);
    for (result, present) in results {
        flow = flow.after(*result, *present);
    }
    flow.step()
}

#[test]
fn outside_program_is_run() {
    assert_eq!(direct(false, &[]), DirectStep::Probe);
    let failed = DirectStep::End { end: RunEnd::Failed };
    assert_eq!(direct(false, &[(RunEnd::Failed, true)]), failed);
    assert_eq!(direct(true, &[OK, (RunEnd::Finished, true)]), DirectStep::ClearOutput);
    assert_eq!(direct(true, &[OK, OK]), DirectStep::MakeOutput);
    assert_eq!(direct(false, &[OK, (RunEnd::Finished, true)]), DirectStep::MakeOutput);
    let to_run = [OK, OK, OK, OK, OK];
    assert_eq!(direct(false, &to_run), DirectStep::RunProgram);
    let after = |end, present| {
        let mut results = to_run.to_vec();
        results.push((end, present));
        direct(false, &results)
    };
    assert_eq!(after(RunEnd::Finished, true), DirectStep::Report);
    assert_eq!(after(RunEnd::Failed, true), failed);
    assert_eq!(after(RunEnd::Cancelled, true), DirectStep::RemoveOutput);
    assert_eq!(
        after(RunEnd::Cancelled, false),
        DirectStep::End { end: RunEnd::Cancelled }
    );
}

#[test]
fn reports_follow_the_installer() {
    assert_eq!(files_to_report(Packed::Zip, 5, 4), 5);
    assert_eq!(files_to_report(Packed::Pkg, 5, 4), 4);
}
