use gogextract::layout::{
    create_staging_dir, ensure_output_path_available, finalize_output, prepare_output_layout,
    DiskAction, Finalize, FinalizeError, OutputLayout, StagingCleanup,
};
use gogextract::messages::{finalize_message, output_taken_message};
use gogextract::paths::{default_output_dir, directory, file_name, join_paths, parent, stem};

fn text(bytes: Vec<u8>) -> String {
    String::from_utf8(bytes).unwrap()
}

#[test]
fn paths_are_taken_apart_as_the_system_does() {
    for p in [
        "", ".", "..", "/", "//", "a", "a/", "a/.", "./a", "./", "a/b", "a//b", "a/./b", "/a",
        "//a", "/./a", "a/..", "../a", "/a/b.c/", ".hidden", "x/.hidden", "a.b.c", "a/b/.././c/.",
        "./.", "...", "..x", ".a", "/.",
    ] {
        let path = std::path::Path::new(p);
        assert_eq!(
            parent(p.as_bytes(), false).map(text).as_deref(),
            path.parent().map(|q| q.to_str().unwrap()),
            "parent of {p:?}"
        );
        assert_eq!(
            file_name(p.as_bytes(), false).map(text).as_deref(),
            path.file_name().map(|q| q.to_str().unwrap()),
            "name of {p:?}"
        );
        if let Some(name) = file_name(p.as_bytes(), false) {
            assert_eq!(
                text(stem(&name)),
                path.file_stem().unwrap().to_str().unwrap(),
                "stem of {p:?}"
            );
        }
        for q in ["x", "x/y", "/x", ""] {
            assert_eq!(
                text(join_paths(p.as_bytes(), q.as_bytes(), false)),
                path.join(q).to_str().unwrap(),
                "{p:?} and {q:?}"
            );
        }
    }
}

#[test]
fn output_is_next_to_the_installer() {
    for (input, output) in [
        ("/games/setup_game_1.0.exe", "/games/setup_game_1.0"),
        ("game.sh", "./game"),
        ("./game.sh", "./game"),
        ("/game", "/game"),
        ("dir/.hidden", "dir/.hidden"),
        ("dir/a.tar.gz", "dir/a.tar"),
        ("/", "./extracted_game_data"),
        ("", "./extracted_game_data"),
        ("a/..", "a/extracted_game_data"),
    ] {
        assert_eq!(text(default_output_dir(input.as_bytes(), false)), output, "{input}");
    }
    assert_eq!(default_output_dir(b"/d/\xff.sh", false), b"/d/\xff");
    assert_eq!(text(directory(b"x", false)), ".");
}

#[test]
fn paths_of_windows_are_taken_apart() {
    for (path, up, name) in [
        (r"C:\games\setup.exe", Some(r"C:\games"), Some("setup.exe")),
        (r"C:\setup.exe", Some(r"C:\"), Some("setup.exe")),
        (r"C:setup.exe", Some("C:"), Some("setup.exe")),
        (r"C:\", None, None),
        (r"C:", None, None),
        (r"a/b\c", Some("a/b"), Some("c")),
        (r"a\b\.\", Some("a"), Some("b")),
        (r"a\..", Some("a"), None),
        (r".\a", Some("."), Some("a")),
        (r"\a", Some(r"\"), Some("a")),
        (r"\\server\share\game.exe", Some(r"\\server\share\"), Some("game.exe")),
        (r"\\server\share", None, None),
        (r"//server/share/a/b", Some("//server/share/a"), Some("b")),
        (r"\\?\C:\a\b/c", Some(r"\\?\C:\a"), Some("b/c")),
        (r"\\?\C:\a\.", Some(r"\\?\C:\a"), None),
        (r"\\?\UNC\server\share\x", Some(r"\\?\UNC\server\share\"), Some("x")),
        (r"\\?\pipe\x", Some(r"\\?\pipe\"), Some("x")),
        (r"\\.\COM1\x", Some(r"\\.\COM1\"), Some("x")),
    ] {
        assert_eq!(parent(path.as_bytes(), true).map(text).as_deref(), up, "{path}");
        assert_eq!(file_name(path.as_bytes(), true).map(text).as_deref(), name, "{path}");
    }
}

#[test]
fn paths_of_windows_are_joined() {
    for (base, rest, path) in [
        (r"C:\a", "b", r"C:\a\b"),
        (r"C:\", "b", r"C:\b"),
        ("C:", "b", "C:b"),
        ("a/", "b", "a/b"),
        ("a", r"\b", r"\b"),
        (r"C:\a", r"\b", r"C:\b"),
        (r"\\server\share\a", "/b", r"\\server\share/b"),
        (r"C:\a", r"D:b", r"D:b"),
        ("", "b", "b"),
    ] {
        assert_eq!(text(join_paths(base.as_bytes(), rest.as_bytes(), true)), path);
    }
    for (input, output) in [
        (r"C:\games\setup_1.0.exe", r"C:\games\setup_1.0"),
        ("game.exe", r".\game"),
        ("C:game.exe", "C:game"),
        (r"C:\", r".\extracted_game_data"),
        (r"\\nas\games\a.exe", r"\\nas\games\a"),
    ] {
        assert_eq!(text(default_output_dir(input.as_bytes(), true)), output);
    }
    let layout = prepare_output_layout(br"D:\out\game", true, true, true, 7, 9, true).unwrap();
    assert_eq!(text(layout.staging_dir), r"D:\out\.gogextract-tmp-7-9");
    assert_eq!(layout.backup_dir.map(text).unwrap(), r"D:\out\.gogextract-tmp-7-9-prev");
}

#[test]
fn taken_output_needs_force() {
    assert!(ensure_output_path_available(b"/o", false, false).is_ok());
    assert!(ensure_output_path_available(b"/o", true, true).is_ok());
    let taken = ensure_output_path_available(b"/o", true, false).unwrap_err();
    assert_eq!(
        output_taken_message(&taken),
        "Output path already exists: /o. Use --force to overwrite."
    );
    assert!(prepare_output_layout(b"/o", false, true, true, 1, 2, false).is_err());
}

#[test]
fn staging_is_a_hidden_sibling() {
    let layout =
        prepare_output_layout(b"/dest/mygame", false, false, false, 42, 1700, false).unwrap();
    assert_eq!(text(layout.output_dir), "/dest/mygame");
    assert_eq!(text(layout.staging_dir), "/dest/.gogextract-tmp-42-1700");
    assert_eq!(layout.backup_dir, None);
    assert_eq!(text(create_staging_dir(b".", 1, 20, false)), "./.gogextract-tmp-1-20");
}

#[test]
fn replaced_output_gets_a_backup() {
    let layout = prepare_output_layout(b"mygame", true, true, true, 7, 9, false).unwrap();
    assert_eq!(text(layout.staging_dir), "./.gogextract-tmp-7-9");
    assert_eq!(layout.backup_dir.map(text).unwrap(), "./.gogextract-tmp-7-9-prev");
    assert!(prepare_output_layout(b"mygame", true, true, false, 7, 9, false)
        .unwrap()
        .backup_dir
        .is_none());
}

#[test]
fn cleanup_is_armed_until_disarmed() {
    let mut cleanup = StagingCleanup::new(b"/s");
    assert_eq!(cleanup.to_remove(), Some(b"/s".to_vec()));
    cleanup.disarm();
    assert_eq!(cleanup.to_remove(), None);
}

fn layout(backup: bool) -> OutputLayout {
    OutputLayout {
        output_dir: b"/o".to_vec(),
        staging_dir: b"/s".to_vec(),
        backup_dir: if backup { Some(b"/b".to_vec()) } else { None },
    }
}

fn renames(run: &Finalize, from: &[u8], to: &[u8]) -> bool {
    matches!(run.action(), Some(DiskAction::Rename { from: f, to: t }) if f == from && t == to)
}

fn failed() -> Result<(), String> {
    Err("denied".to_owned())
}

fn error(run: Finalize) -> (FinalizeError, String) {
    assert!(run.action().is_none());
    let e = run.outcome().unwrap().unwrap_err();
    let text = finalize_message(&e, b"/o", b"/b");
    (e, text)
}

#[test]
fn new_output_is_moved_into_place() {
    let run = finalize_output(layout(false));
    assert!(renames(&run, b"/s", b"/o"));
    let run = run.after(Ok(()));
    assert!(run.action().is_none());
    assert!(run.outcome().unwrap().is_ok());

    let (e, text) = error(finalize_output(layout(false)).after(failed()));
    assert!(matches!(e, FinalizeError::MoveIntoPlace(_)));
    assert_eq!(text, "Failed to move staging directory into place as /o: denied");
    assert!(finalize_output(layout(false)).outcome().is_none());
}

#[test]
fn previous_output_is_replaced() {
    let run = finalize_output(layout(true));
    assert!(renames(&run, b"/o", b"/b"));
    let run = run.after(Ok(()));
    assert!(renames(&run, b"/s", b"/o"));
    let run = run.after(Ok(()));
    assert!(matches!(run.action(), Some(DiskAction::Remove { path }) if path == b"/b"));
    assert!(run.after(Ok(())).outcome().unwrap().is_ok());
}

#[test]
fn previous_output_is_restored() {
    let (e, text) = error(finalize_output(layout(true)).after(failed()));
    assert!(matches!(e, FinalizeError::MoveAside(_)));
    assert_eq!(text, "Failed to move existing /o out of the way: denied");

    let run = finalize_output(layout(true)).after(Ok(())).after(failed());
    assert!(renames(&run, b"/b", b"/o"));
    let (e, _) = error(run.after(Ok(())));
    assert!(matches!(e, FinalizeError::MoveIntoPlace(cause) if cause == "denied"));

    let run = finalize_output(layout(true)).after(Ok(())).after(failed());
    let (e, text) = error(run.after(Err("gone".to_owned())));
    assert!(matches!(e, FinalizeError::Restore { .. }));
    assert_eq!(
        text,
        "Failed to restore previous output /o after replacement failed \
         (original rename error: denied): gone"
    );

    let run = finalize_output(layout(true)).after(Ok(())).after(Ok(()));
    let (e, text) = error(run.after(failed()));
    assert!(matches!(e, FinalizeError::RemoveBackup(_)));
    assert_eq!(text, "Failed to remove previous output backup /b: denied");
}
