use arca::archive::{EntryKind, ScannedEntry};
use arca::direct_edit::{
    check_expected_digest, direct_edit_save_changes, normalize_archive_path_set, plan_direct_edit_add_scanned, rewrite_keeps,
    DirectEditPendingEntry,
};
use arca::error::ArcaError;
use arca::plan::{ArchiveEntry, SourceSnapshot};
use arca::time::UnixTime;
use std::path::PathBuf;

fn scanned(path: &str, kind: EntryKind) -> ScannedEntry {
    ScannedEntry { path: path.into(), kind, link_target: None, size: 1, mode: None, modified: None }
}

fn planned(path: &str, kind: EntryKind) -> ArchiveEntry {
    ArchiveEntry {
        source: PathBuf::from(format!("/inputs/{path}")),
        archive_path: path.into(),
        kind,
        symlink_target: None,
        size: 1,
        snapshot: SourceSnapshot {
            kind,
            len: 1,
            modified: None,
            mode: None,
            dev: 0,
            ino: 0,
            changed: UnixTime { seconds: 0, nanos: 0 },
        },
    }
}

fn manifest() -> Vec<ScannedEntry> {
    vec![scanned("README.txt", EntryKind::File), scanned("keep.txt", EntryKind::File)]
}

#[test]
fn add_plan_splits_additions_and_replacements() {
    let inputs = vec![planned("README.txt", EntryKind::File), planned("new.txt", EntryKind::File)];
    let plan = plan_direct_edit_add_scanned(&manifest(), &vec![], &vec![], &inputs).unwrap();
    assert_eq!(plan.additions.len(), 1);
    assert_eq!(plan.additions[0].archive_path, "new.txt");
    assert_eq!(plan.additions[0].entry_type, "file");
    assert_eq!(plan.replacements.len(), 1);
    assert_eq!(plan.replacements[0].archive_path, "README.txt");
    assert_eq!(plan.replacements[0].source_path, PathBuf::from("/inputs/README.txt"));
}

#[test]
fn add_plan_matches_paths_by_collision_key() {
    let inputs = vec![planned("readme.TXT", EntryKind::File)];
    let plan = plan_direct_edit_add_scanned(&manifest(), &vec![], &vec![], &inputs).unwrap();
    assert_eq!(plan.replacements.len(), 1);
    assert!(plan.additions.is_empty());
}

#[test]
fn add_plan_treats_pending_deletions_as_gone() {
    let inputs = vec![planned("README.txt", EntryKind::File)];
    let plan = plan_direct_edit_add_scanned(&manifest(), &vec!["README.txt".into()], &vec![], &inputs).unwrap();
    assert_eq!(plan.additions.len(), 1);
    assert!(plan.replacements.is_empty());
}

#[test]
fn add_plan_rejects_conflict_with_pending_addition() {
    let pending = vec![DirectEditPendingEntry { archive_path: "new.txt".into(), entry_type: "file".into() }];
    let inputs = vec![planned("new.txt", EntryKind::File)];
    let err = plan_direct_edit_add_scanned(&manifest(), &vec![], &pending, &inputs).unwrap_err();
    match err {
        ArcaError::Usage(message) => assert!(message.contains("pending changes")),
        other => panic!("unexpected {other:?}"),
    }
    let odd = vec![DirectEditPendingEntry { archive_path: "x".into(), entry_type: "socket".into() }];
    assert!(matches!(plan_direct_edit_add_scanned(&manifest(), &vec![], &odd, &inputs), Err(ArcaError::Usage(_))));
}

#[test]
fn add_plan_rejects_files_below_pending_files() {
    let pending = vec![DirectEditPendingEntry { archive_path: "new".into(), entry_type: "file".into() }];
    let inputs = vec![planned("new/inner.txt", EntryKind::File)];
    assert!(matches!(plan_direct_edit_add_scanned(&manifest(), &vec![], &pending, &inputs), Err(ArcaError::Usage(_))));
}

#[test]
fn save_requires_confirmed_replacements() {
    let inputs = vec![planned("README.txt", EntryKind::File)];
    let err = direct_edit_save_changes(&manifest(), &vec![], &vec!["README.txt".into()], &vec![], &inputs).err().unwrap();
    assert!(matches!(err, ArcaError::Usage(_)));
    let changes =
        direct_edit_save_changes(&manifest(), &vec![], &vec!["README.txt".into()], &vec!["README.txt".into()], &inputs)
            .unwrap();
    assert_eq!(changes.included.len(), 1);
    assert!(changes.replaced.contains("README.txt"));
    assert!(!changes.replaced.contains("keep.txt"));
}

#[test]
fn save_includes_only_requested_inputs() {
    let inputs = vec![planned("a.txt", EntryKind::File), planned("b.txt", EntryKind::File)];
    let changes = direct_edit_save_changes(&manifest(), &vec![], &vec!["b.txt".into()], &vec![], &inputs).unwrap();
    assert_eq!(changes.included.len(), 1);
    assert_eq!(changes.included[0].archive_path, "b.txt");
    let err = direct_edit_save_changes(&manifest(), &vec![], &vec!["c.txt".into()], &vec![], &inputs).err().unwrap();
    match err {
        ArcaError::Usage(message) => assert_eq!(message, "planned add entry not found: c.txt"),
        other => panic!("unexpected {other:?}"),
    }
}

#[test]
fn save_deletes_selected_entries() {
    let changes = direct_edit_save_changes(&manifest(), &vec!["keep.txt".into()], &vec![], &vec![], &vec![]).unwrap();
    assert!(changes.deleted.contains("keep.txt"));
    assert!(!changes.deleted.contains("README.txt"));
    assert!(changes.included.is_empty());
    let err = direct_edit_save_changes(&manifest(), &vec!["missing.txt".into()], &vec![], &vec![], &vec![]).err().unwrap();
    assert!(matches!(err, ArcaError::Usage(_)));
}

#[test]
fn save_replaces_a_file_by_a_directory_tree_once_confirmed() {
    let manifest = vec![scanned("dir", EntryKind::File)];
    let inputs = vec![planned("dir/inner.txt", EntryKind::File)];
    let unconfirmed = direct_edit_save_changes(&manifest, &vec![], &vec!["dir/inner.txt".into()], &vec![], &inputs);
    assert!(matches!(unconfirmed.err(), Some(ArcaError::Usage(_))));
    let confirmed =
        direct_edit_save_changes(&manifest, &vec![], &vec!["dir/inner.txt".into()], &vec!["dir/inner.txt".into()], &inputs)
            .ok()
            .unwrap();
    assert!(confirmed.replaced.contains("dir"));
}

#[test]
fn save_refuses_colliding_final_paths() {
    let inputs = vec![planned("A.txt", EntryKind::File), planned("a.txt", EntryKind::File)];
    let err = direct_edit_save_changes(&manifest(), &vec![], &vec!["A.txt".into(), "a.txt".into()], &vec![], &inputs);
    assert!(matches!(err.err(), Some(ArcaError::Security(_))));
}

#[test]
fn encrypted_zip_archives_are_not_rewritten() {
    assert!(arca::direct_edit::reject_encrypted_zip(&vec![false, false]).is_ok());
    assert!(matches!(
        arca::direct_edit::reject_encrypted_zip(&vec![false, true]),
        Err(arca::error::ArcaError::Unsupported(_))
    ));
}

#[test]
fn unplanned_additions_are_listed_in_order() {
    let inputs = vec![planned("a.txt", EntryKind::File)];
    let requested: Vec<String> = vec!["z.txt".into(), "c.txt".into(), "a.txt".into(), "c.txt".into(), "m/n.txt".into()];
    let err = direct_edit_save_changes(&manifest(), &vec![], &requested, &vec![], &inputs).err().unwrap();
    match err {
        ArcaError::Usage(message) => assert_eq!(message, "planned add entry not found: c.txt, m/n.txt, z.txt"),
        other => panic!("unexpected {other:?}"),
    }
}

#[test]
fn a_save_needs_the_inspected_digest() {
    let mut digest = [0u8; 32];
    digest[0] = 0x1f;
    let hex = format!("1f{}", "00".repeat(31));
    assert_eq!(check_expected_digest(&hex, digest, "a.zip").unwrap(), hex);
    match check_expected_digest("00", digest, "a.zip") {
        Err(ArcaError::Integrity(m)) => assert_eq!(m, "archive changed before saving: a.zip"),
        other => panic!("unexpected {other:?}"),
    }
}

#[test]
fn a_rewrite_keeps_what_is_neither_deleted_nor_replaced() {
    let deleted = normalize_archive_path_set(&vec!["old.txt".to_string()]).unwrap();
    let replaced = normalize_archive_path_set(&vec!["dir/new.txt".to_string()]).unwrap();
    assert!(rewrite_keeps("keep.txt", &deleted, &replaced).unwrap());
    assert!(rewrite_keeps("dir/", &deleted, &replaced).unwrap());
    assert!(!rewrite_keeps("old.txt", &deleted, &replaced).unwrap());
    assert!(!rewrite_keeps("dir/new.txt", &deleted, &replaced).unwrap());
    match rewrite_keeps("/", &deleted, &replaced) {
        Err(ArcaError::Security(m)) => assert_eq!(m, "cannot rewrite ZIP archive with an empty entry name"),
        other => panic!("unexpected {other:?}"),
    }
    assert!(matches!(rewrite_keeps("../x", &deleted, &replaced), Err(ArcaError::Security(_))));
}
