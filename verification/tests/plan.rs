use arca::archive::EntryKind;
use arca::error::ArcaError;
use arca::format::{descriptor_for_extension, descriptor_matches_signature};
use arca::plan::{
    build_globset, check_output_against_input, check_plan_unchanged, ArchiveEntry, check_source_snapshot, metadata_kind, planned_entry,
    push_entry_admits, validate_plan_inputs, FileTypeFlags, PathPart, SourceSnapshot,
};
use arca::policy::CollisionSet;
use arca::time::UnixTime;
use std::path::PathBuf;

fn snapshot(kind: EntryKind, len: u64) -> SourceSnapshot {
    SourceSnapshot {
        kind,
        len,
        modified: Some(UnixTime { seconds: 1, nanos: 0 }),
        mode: Some(0o644),
        dev: 1,
        ino: 2,
        changed: UnixTime { seconds: 1, nanos: 0 },
    }
}

fn flags(is_symlink: bool, is_dir: bool, is_file: bool, is_special: bool) -> FileTypeFlags {
    FileTypeFlags { is_symlink, is_dir, is_file, is_special }
}

#[test]
fn excluded_paths_are_skipped_and_others_recorded() {
    let excludes = build_globset(&vec!["*.log".to_string()]).unwrap();
    let mut collisions = CollisionSet::new();
    assert_eq!(push_entry_admits("dir/a.log", &excludes, &mut collisions).unwrap(), false);
    assert_eq!(push_entry_admits("dir/a.txt", &excludes, &mut collisions).unwrap(), true);
    assert!(matches!(push_entry_admits("DIR/A.TXT", &excludes, &mut collisions), Err(ArcaError::Security(_))));
    assert!(matches!(push_entry_admits("../x", &excludes, &mut collisions), Err(ArcaError::Security(_))));
}

#[test]
fn no_exclude_pattern_excludes_nothing() {
    let excludes = build_globset(&Vec::new()).unwrap();
    let mut collisions = CollisionSet::new();
    assert_eq!(push_entry_admits("a.log", &excludes, &mut collisions).unwrap(), true);
}

#[test]
fn invalid_exclude_pattern_is_a_glob_error() {
    assert!(matches!(build_globset(&vec!["ok".to_string(), "a[".to_string()]), Err(ArcaError::Glob(_))));
}

#[test]
fn input_kinds_follow_the_file_type() {
    assert_eq!(metadata_kind("x", flags(true, false, false, false)).unwrap(), EntryKind::Symlink);
    assert_eq!(metadata_kind("x", flags(false, true, false, false)).unwrap(), EntryKind::Directory);
    assert_eq!(metadata_kind("x", flags(false, false, true, false)).unwrap(), EntryKind::File);
    match metadata_kind("/dev/x", flags(false, false, false, true)) {
        Err(ArcaError::Security(message)) => assert_eq!(message, "special file entries are not supported: /dev/x"),
        other => panic!("unexpected {other:?}"),
    }
    match metadata_kind("odd", flags(false, false, false, false)) {
        Err(ArcaError::Security(message)) => assert_eq!(message, "unsupported input file type: odd"),
        other => panic!("unexpected {other:?}"),
    }
}

#[test]
fn planned_entries_carry_size_only_for_files() {
    let file = planned_entry(PathBuf::from("a"), "a".to_string(), EntryKind::File, None, 10, snapshot(EntryKind::File, 10))
        .unwrap();
    assert_eq!(file.size, 10);
    assert_eq!(file.symlink_target, None);
    let dir = planned_entry(PathBuf::from("d"), "d".to_string(), EntryKind::Directory, None, 4096, snapshot(EntryKind::Directory, 4096))
        .unwrap();
    assert_eq!(dir.size, 0);
}

#[test]
fn planned_symlinks_carry_a_checked_target() {
    let parts = vec![PathPart::Normal(Some("b".to_string())), PathPart::CurDir, PathPart::Normal(Some("c".to_string()))];
    let link = planned_entry(PathBuf::from("l"), "l".to_string(), EntryKind::Symlink, Some(parts), 3, snapshot(EntryKind::Symlink, 3))
        .unwrap();
    assert_eq!(link.symlink_target, Some("b/c".to_string()));
    assert_eq!(link.size, 0);
    let escaping = vec![PathPart::Other, PathPart::Normal(Some("etc".to_string()))];
    assert!(matches!(
        planned_entry(PathBuf::from("l"), "l".to_string(), EntryKind::Symlink, Some(escaping), 3, snapshot(EntryKind::Symlink, 3)),
        Err(ArcaError::Security(_))
    ));
    let non_utf8 = vec![PathPart::Normal(None)];
    assert!(matches!(
        planned_entry(PathBuf::from("l"), "l".to_string(), EntryKind::Symlink, Some(non_utf8), 3, snapshot(EntryKind::Symlink, 3)),
        Err(ArcaError::NonUtf8Path(_))
    ));
}

#[test]
fn a_plan_needs_inputs() {
    assert!(matches!(validate_plan_inputs(&Vec::new()), Err(ArcaError::Usage(_))));
    assert!(validate_plan_inputs(&vec![PathBuf::from("a")]).is_ok());
}

fn components(parts: &[&str]) -> Vec<Vec<u8>> {
    parts.iter().map(|part| part.as_bytes().to_vec()).collect()
}

#[test]
fn output_may_not_be_inside_an_input_tree_or_an_input_file() {
    let output = components(&["/", "home", "a", "out.zip"]);
    assert!(matches!(
        check_output_against_input(&output, &components(&["/", "home", "a"]), true, "/home/a/out.zip"),
        Err(ArcaError::Usage(_))
    ));
    assert!(check_output_against_input(&output, &components(&["/", "home", "ab"]), true, "/home/a/out.zip").is_ok());
    assert!(matches!(
        check_output_against_input(&output, &output, false, "/home/a/out.zip"),
        Err(ArcaError::Usage(_))
    ));
    assert!(check_output_against_input(&output, &components(&["/", "home", "a"]), false, "/home/a/out.zip").is_ok());
}

#[test]
fn changed_inputs_are_integrity_errors() {
    let before = snapshot(EntryKind::File, 10);
    assert!(check_source_snapshot(&before, &before, "a", false).is_ok());
    match check_source_snapshot(&before, &snapshot(EntryKind::File, 11), "a", true) {
        Err(ArcaError::Integrity(message)) => assert_eq!(message, "input file changed during compression: a"),
        other => panic!("unexpected {other:?}"),
    }
    match check_source_snapshot(&before, &snapshot(EntryKind::File, 11), "a", false) {
        Err(ArcaError::Integrity(message)) => assert_eq!(message, "input changed during compression: a"),
        other => panic!("unexpected {other:?}"),
    }
}

#[test]
fn signatures_are_matched_against_what_was_read() {
    let zip = descriptor_for_extension("zip").unwrap();
    let all: Vec<Option<Vec<u8>>> = zip.signatures.iter().map(|s| Some(s.bytes.clone())).collect();
    assert!(descriptor_matches_signature(&zip, &all));
    let mut only_last: Vec<Option<Vec<u8>>> = zip.signatures.iter().map(|_| None).collect();
    let last = zip.signatures.len() - 1;
    only_last[last] = Some(zip.signatures[last].bytes.clone());
    assert!(descriptor_matches_signature(&zip, &only_last));
    let wrong: Vec<Option<Vec<u8>>> = zip.signatures.iter().map(|_| Some(b"7z\xbc\xaf".to_vec())).collect();
    assert!(!descriptor_matches_signature(&zip, &wrong));
    let none: Vec<Option<Vec<u8>>> = zip.signatures.iter().map(|_| None).collect();
    assert!(!descriptor_matches_signature(&zip, &none));
}

fn entry(path: &str, size: u64) -> ArchiveEntry {
    ArchiveEntry {
        source: PathBuf::from(format!("/in/{path}")),
        archive_path: path.into(),
        kind: EntryKind::File,
        symlink_target: None,
        size,
        snapshot: snapshot(EntryKind::File, size),
    }
}

#[test]
fn a_plan_taken_again_must_match_the_written_one() {
    let written = vec![entry("a.txt", 1), entry("b.txt", 2)];
    assert!(check_plan_unchanged(&written, &vec![entry("a.txt", 1), entry("b.txt", 2)]).is_ok());
    for changed in [vec![entry("a.txt", 1)], vec![entry("a.txt", 1), entry("b.txt", 3)], vec![entry("b.txt", 2), entry("a.txt", 1)]] {
        match check_plan_unchanged(&written, &changed) {
            Err(ArcaError::Integrity(m)) => assert_eq!(m, "input tree changed during compression"),
            other => panic!("unexpected {other:?}"),
        }
    }
    let mut moved = entry("a.txt", 1);
    moved.source = PathBuf::from("/elsewhere/a.txt");
    assert!(check_plan_unchanged(&vec![entry("a.txt", 1)], &vec![moved]).is_err());
}
