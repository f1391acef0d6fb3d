use arca::archive::{ArchiveHierarchy, ArchiveSelection, EntryKind, PathGuard, ScannedEntry};
use arca::error::ArcaError;
use arca::plan::{path_to_archive_string, PathPart};
use arca::policy::{collision_key, validate_archive_path, validate_symlink_target, CollisionSet};

#[test]
fn rejects_reserved_with_extension() {
    assert!(validate_archive_path("CON.txt").is_err());
}

#[test]
fn rejects_ads_colon() {
    assert!(validate_archive_path("a:b").is_err());
}

#[test]
fn rejects_traversal() {
    assert!(validate_archive_path("../x").is_err());
}

#[test]
fn rejects_common_cross_platform_filename_bypasses() {
    for path in [
        "/absolute.txt",
        "\\absolute.txt",
        "C:/absolute.txt",
        "dir\\file.txt",
        "file:name.txt",
        "name.",
        "name ",
        "line\nbreak.txt",
        "./file.txt",
        "dir//file.txt",
    ] {
        assert!(validate_archive_path(path).is_err(), "accepted {path:?}");
    }
}

#[test]
fn collision_key_catches_case() {
    let mut set = CollisionSet::default();
    set.insert_archive_path("Readme.txt").unwrap();
    assert!(set.insert_archive_path("README.TXT").is_err());
}

#[test]
fn collision_key_catches_unicode_normalization() {
    let mut set = CollisionSet::default();
    set.insert_archive_path("Cafe\u{301}.txt").unwrap();
    assert!(set.insert_archive_path("Caf\u{e9}.txt").is_err());
}

#[test]
fn archive_string_uses_forward_slashes() {
    let parts = vec![PathPart::Normal(Some("a".to_owned())), PathPart::Normal(Some("b.txt".to_owned()))];
    assert_eq!(path_to_archive_string(&parts).unwrap(), "a/b.txt");
}

#[test]
fn archive_string_drops_current_dir_and_refuses_parents() {
    let parts = vec![PathPart::CurDir, PathPart::Normal(Some("x".to_owned()))];
    assert_eq!(path_to_archive_string(&parts).unwrap(), "x");
    assert!(matches!(path_to_archive_string(&vec![PathPart::Other]), Err(ArcaError::Security(_))));
    assert!(matches!(path_to_archive_string(&vec![PathPart::Normal(None)]), Err(ArcaError::NonUtf8Path(_))));
    assert!(matches!(path_to_archive_string(&vec![PathPart::CurDir]), Err(ArcaError::Security(_))));
}

#[test]
fn accepts_ordinary_paths() {
    assert!(validate_archive_path("docs/readme.txt").is_ok());
    assert!(validate_archive_path("dir/").is_ok());
    assert!(validate_archive_path("").is_err());
    assert!(validate_archive_path("a/../b").is_err());
    assert!(validate_archive_path("COM1").is_err());
    assert!(validate_archive_path("lpt9.log").is_err());
}

#[test]
fn symlink_targets_stay_inside() {
    assert!(validate_symlink_target("sibling.txt").is_ok());
    assert!(validate_symlink_target("../outside").is_err());
    assert!(validate_symlink_target("/etc/passwd").is_err());
    assert!(validate_symlink_target("").is_err());
}

#[test]
fn collision_keys_fold_case_and_compose() {
    assert_eq!(collision_key("Dir/File.TXT").unwrap(), collision_key("dir/file.txt").unwrap());
    assert_eq!(collision_key("Cafe\u{301}").unwrap(), collision_key("caf\u{e9}").unwrap());
    assert!(collision_key("../x").is_err());
}

#[test]
fn hierarchy_refuses_entries_below_files() {
    let mut hierarchy = ArchiveHierarchy::new();
    hierarchy.insert("a", EntryKind::File).unwrap();
    assert!(matches!(hierarchy.insert("a/b", EntryKind::File), Err(ArcaError::Security(_))));
    let mut hierarchy = ArchiveHierarchy::new();
    hierarchy.insert("d/x", EntryKind::File).unwrap();
    assert!(hierarchy.insert("d", EntryKind::File).is_err());
    assert!(hierarchy.insert("d", EntryKind::Directory).is_ok());
}

#[test]
fn path_guard_refuses_collisions_and_prefix_conflicts() {
    let mut guard = PathGuard::new();
    guard.accept("link", EntryKind::Symlink).unwrap();
    assert!(guard.accept("LINK", EntryKind::File).is_err());
    assert!(guard.accept("link/file.txt", EntryKind::File).is_err());
    assert!(guard.accept("other", EntryKind::File).is_ok());
}

fn entry(path: &str, kind: EntryKind) -> ScannedEntry {
    ScannedEntry { path: path.to_owned(), kind, link_target: None, size: 1, mode: None, modified: None }
}

#[test]
fn selection_includes_directory_subtrees() {
    let manifest = vec![
        entry("README.txt", EntryKind::File),
        entry("sub", EntryKind::Directory),
        entry("sub/data.txt", EntryKind::File),
        entry("subway.txt", EntryKind::File),
    ];
    let selection = ArchiveSelection::new(&vec!["sub/".to_owned()]).unwrap();
    assert_eq!(selection.select_manifest(&manifest).unwrap(), vec![1, 2]);
    let missing = ArchiveSelection::new(&vec!["missing.txt".to_owned()]).unwrap();
    assert!(matches!(missing.select_manifest(&manifest), Err(ArcaError::Usage(_))));
    assert!(matches!(ArchiveSelection::new(&vec![]), Err(ArcaError::Usage(_))));
    assert!(matches!(ArchiveSelection::new(&vec!["/".to_owned()]), Err(ArcaError::Usage(_))));
}

fn security_detail(result: Result<(), ArcaError>) -> String {
    match result {
        Err(ArcaError::Security(message)) => message,
        other => panic!("expected a security error, got {other:?}"),
    }
}

#[test]
fn refusals_name_the_broken_rule() {
    assert_eq!(security_detail(validate_archive_path("///")), "empty archive path");
    assert_eq!(security_detail(validate_archive_path("/etc/passwd")), "absolute archive path is not allowed: /etc/passwd");
    assert_eq!(security_detail(validate_archive_path("C:/x/")), "absolute archive path is not allowed: C:/x");
    assert_eq!(security_detail(validate_archive_path("a/../b")), "invalid archive path component: \"..\"");
    assert_eq!(
        security_detail(validate_archive_path("a\\b")),
        "backslash is not allowed in archive path component: a\\b"
    );
    assert_eq!(security_detail(validate_archive_path("ok/a:b")), "colon/ADS path component is not allowed: a:b");
    assert_eq!(
        security_detail(validate_archive_path("name.")),
        "trailing space/dot path component is not allowed: name."
    );
    assert_eq!(
        security_detail(validate_archive_path("line\nbreak")),
        "control character is not allowed in archive path component: \"line\\nbreak\""
    );
    assert_eq!(
        security_detail(validate_archive_path("dir/LPT1.log")),
        "Windows reserved path component is not allowed: LPT1.log"
    );
    assert_eq!(security_detail(validate_symlink_target("")), "empty symlink target");
    assert_eq!(security_detail(validate_symlink_target("/x")), "absolute symlink target is not allowed: /x");
    assert_eq!(security_detail(validate_symlink_target("../x")), "invalid archive path component: \"..\"");
}

#[test]
fn collision_refusal_is_reported_after_validity() {
    let mut seen = CollisionSet::new();
    seen.insert_archive_path("Readme.txt").unwrap();
    assert_eq!(security_detail(seen.insert_archive_path("README.TXT")), "archive path collision for README.TXT");
    assert_eq!(security_detail(seen.insert_archive_path("")), "empty archive path");
}

#[test]
fn selection_refusals_list_the_requested_paths_in_order() {
    let selection = ArchiveSelection::new(&vec!["missing.txt".to_owned(), "data.txt".to_owned()]).unwrap();
    match selection.require_single_stream_match("data.txt") {
        Err(ArcaError::Usage(message)) => {
            assert_eq!(message, "selected archive entry not found: data.txt, missing.txt")
        }
        other => panic!("unexpected {other:?}"),
    }
    let selection = ArchiveSelection::new(&vec!["z".to_owned(), "b/".to_owned(), "a".to_owned(), "b".to_owned()]).unwrap();
    let manifest = vec![entry("b", EntryKind::File)];
    match selection.select_manifest(&manifest) {
        Err(ArcaError::Usage(message)) => assert_eq!(message, "selected archive entry not found: a, z"),
        other => panic!("unexpected {other:?}"),
    }
}
