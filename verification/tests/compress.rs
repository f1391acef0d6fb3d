use arca::archive::{EntryKind, ScannedEntry};
use arca::compress::{check_compress_output, check_single_stream_inputs, check_single_stream_kind, compress_target};
use arca::scan::tar_archive_error;
use arca::error::ArcaError;
use arca::format::{CompressionKind, FormatKind};
use arca::integrity::{
    check_archive_unchanged, check_tar_manifest, check_tested_size, two_pass_start, two_pass_step, ArchiveStage,
    TwoPassAction, TwoPassEvent, TwoPassState,
};
use arca::options::{Encryption, Password};

fn names(list: &[&str]) -> Vec<Option<String>> {
    list.iter().map(|name| Some(name.to_string())).collect()
}

#[test]
fn output_names_default_and_gain_zip() {
    let target = compress_target(Some("out".to_string()), &names(&["a"]), 1, false, false, None, &Encryption::Unencrypted)
        .unwrap();
    assert_eq!(target.output_name, "out.zip");
    assert_eq!(target.format.kind, FormatKind::Zip);
    let target = compress_target(None, &names(&["docs"]), 1, true, false, None, &Encryption::Unencrypted).unwrap();
    assert_eq!(target.output_name, "docs.zip");
    let target = compress_target(None, &names(&["a", "b"]), 1, false, false, None, &Encryption::Unencrypted).unwrap();
    assert_eq!(target.output_name, "archive.zip");
}

#[test]
fn refused_compressions_name_their_class() {
    let none = Encryption::Unencrypted;
    assert!(matches!(compress_target(None, &Vec::new(), 1, false, false, None, &none), Err(ArcaError::Usage(_))));
    assert!(matches!(compress_target(None, &vec![None], 1, false, false, None, &none), Err(ArcaError::NonUtf8Path(_))));
    assert!(matches!(
        compress_target(Some("a.zip".to_string()), &names(&["a"]), 0, false, false, None, &none),
        Err(ArcaError::Usage(_))
    ));
    assert!(matches!(
        compress_target(Some("a.rar".to_string()), &names(&["a"]), 1, false, false, None, &none),
        Err(ArcaError::Unsupported(_))
    ));
    assert!(matches!(
        compress_target(Some("a.tar".to_string()), &names(&["a"]), 2, false, false, None, &none),
        Err(ArcaError::Unsupported(_))
    ));
    assert!(matches!(
        compress_target(Some("a.tar".to_string()), &names(&["a"]), 1, false, false, Some(3), &none),
        Err(ArcaError::Unsupported(_))
    ));
    let aes = Encryption::Aes256(Password::new(b"p".to_vec()));
    assert!(matches!(
        compress_target(Some("a.tar".to_string()), &names(&["a"]), 1, false, false, None, &aes),
        Err(ArcaError::Unsupported(_))
    ));
    let zipcrypto = Encryption::ZipCrypto(Password::new(b"p".to_vec()));
    assert!(matches!(
        compress_target(Some("a.zip".to_string()), &names(&["a"]), 2, false, false, None, &zipcrypto),
        Err(ArcaError::Unsupported(_))
    ));
    assert!(compress_target(Some("a.zip".to_string()), &names(&["a"]), 1, false, false, None, &zipcrypto).is_ok());
}

#[test]
fn directories_in_single_file_formats_need_auto_tar() {
    let none = Encryption::Unencrypted;
    match compress_target(Some("a.gz".to_string()), &names(&["d"]), 1, true, false, None, &none) {
        Err(ArcaError::Unsupported(message)) => {
            assert_eq!(message, ".gz is a single-file format; use a tar-based suffix or --auto-tar")
        }
        other => panic!("unexpected {other:?}"),
    }
    let target = compress_target(Some("a.gz".to_string()), &names(&["d"]), 1, true, true, None, &none).unwrap();
    assert_eq!(target.output_name, "a.tar.gz");
    assert_eq!(target.format.kind, FormatKind::TarCompressed(CompressionKind::Gzip));
    let target = compress_target(Some("f.xz".to_string()), &names(&["f"]), 1, false, true, None, &none).unwrap();
    assert_eq!(target.output_name, "f.xz");
}

#[test]
fn existing_outputs_need_overwrite() {
    assert!(matches!(check_compress_output(true, false, "a.zip"), Err(ArcaError::Usage(_))));
    assert!(check_compress_output(true, true, "a.zip").is_ok());
    assert!(check_compress_output(false, false, "a.zip").is_ok());
}

#[test]
fn a_changed_archive_is_an_integrity_error() {
    let before = [7u8; 32];
    let mut after = before;
    assert!(check_archive_unchanged(&before, &after, ArchiveStage::Testing, "a.zip").is_ok());
    after[31] = 8;
    match check_archive_unchanged(&before, &after, ArchiveStage::Listing, "a.zip") {
        Err(ArcaError::Integrity(message)) => assert_eq!(message, "archive changed while listing: a.zip"),
        other => panic!("unexpected {other:?}"),
    }
    match check_archive_unchanged(&before, &after, ArchiveStage::Extraction, "a.zip") {
        Err(ArcaError::Integrity(message)) => assert_eq!(message, "archive changed between validation and extraction"),
        other => panic!("unexpected {other:?}"),
    }
}

fn scanned(path: &str, size: u64) -> ScannedEntry {
    ScannedEntry { path: path.to_string(), kind: EntryKind::File, link_target: None, size, mode: Some(0o644), modified: None }
}

#[test]
fn tar_passes_must_meet_the_same_entries() {
    let first = vec![scanned("a", 1), scanned("b", 2)];
    assert!(check_tar_manifest(&first, &vec![scanned("a", 9), scanned("b", 2)], true).is_ok());
    assert!(matches!(check_tar_manifest(&first, &vec![scanned("a", 1)], true), Err(ArcaError::Integrity(_))));
    match check_tar_manifest(&first, &vec![scanned("b", 2), scanned("a", 1)], false) {
        Err(ArcaError::Integrity(message)) => {
            assert_eq!(message, "tar entry manifest changed between validation and testing")
        }
        other => panic!("unexpected {other:?}"),
    }
}

#[test]
fn single_file_formats_take_one_regular_file() {
    assert!(check_single_stream_inputs(1).is_ok());
    assert!(matches!(check_single_stream_inputs(2), Err(ArcaError::Usage(_))));
    assert!(check_single_stream_kind(EntryKind::File).is_ok());
    assert!(matches!(check_single_stream_kind(EntryKind::Directory), Err(ArcaError::Usage(_))));
}

#[test]
fn tested_sizes_must_match() {
    assert!(check_tested_size(4, 4, "a.zip", false).is_ok());
    match check_tested_size(3, 4, "a.tar", true) {
        Err(ArcaError::Integrity(message)) => assert_eq!(message, "tar entry size changed while testing a.tar"),
        other => panic!("unexpected {other:?}"),
    }
}

#[test]
fn unreadable_tar_archives_are_integrity_errors_unless_canceled() {
    assert!(matches!(tar_archive_error(true, "x"), ArcaError::Canceled(_)));
    match tar_archive_error(false, "bad header") {
        ArcaError::Integrity(message) => assert_eq!(message, "failed to read tar archive: bad header"),
        other => panic!("unexpected {other:?}"),
    }
}

#[test]
fn zipcrypto_zip_compress_rejects_parallel_jobs() {
    let encryption = Encryption::ZipCrypto(Password::new(b"secret".to_vec()));
    let err = compress_target(Some("legacy.zip".to_string()), &names(&["input"]), 2, true, false, None, &encryption)
        .unwrap_err();
    assert!(matches!(err, ArcaError::Unsupported(_)), "expected unsupported error, got {err:?}");
}

#[test]
fn non_zip_compress_rejects_parallel_jobs() {
    let err = compress_target(Some("input.tar.gz".to_string()), &names(&["input"]), 2, true, false, None, &Encryption::Unencrypted)
        .unwrap_err();
    assert!(matches!(err, ArcaError::Unsupported(_)), "expected unsupported error, got {err:?}");
}

fn refusal_text(result: Result<arca::compress::CompressTarget, ArcaError>) -> String {
    match result {
        Err(error) => error.message(),
        Ok(target) => panic!("expected a refusal, got {}", target.output_name),
    }
}

#[test]
fn refused_compressions_say_why() {
    let none = Encryption::Unencrypted;
    let aes = Encryption::Aes256(Password::new(b"p".to_vec()));
    let zipcrypto = Encryption::ZipCrypto(Password::new(b"p".to_vec()));
    let out = |name: &str| Some(name.to_string());
    assert_eq!(
        refusal_text(compress_target(None, &Vec::new(), 1, false, false, None, &none)),
        "usage error: compress requires at least one input"
    );
    assert_eq!(
        refusal_text(compress_target(out("a.zip"), &names(&["a"]), 0, false, false, None, &none)),
        "usage error: --jobs must be at least 1"
    );
    assert_eq!(
        refusal_text(compress_target(out("a.rar"), &names(&["a"]), 1, false, false, None, &none)),
        "unsupported format or feature: unsupported archive suffix for a.rar"
    );
    assert_eq!(
        refusal_text(compress_target(out("a.tar"), &names(&["a"]), 2, false, false, None, &none)),
        "unsupported format or feature: compression --jobs > 1 is only supported for .zip"
    );
    assert_eq!(
        refusal_text(compress_target(out("a.tar"), &names(&["a"]), 1, false, false, Some(3), &none)),
        "unsupported format or feature: --level is not supported for .tar"
    );
    assert_eq!(
        refusal_text(compress_target(out("a.tar.gz"), &names(&["a"]), 1, false, false, None, &aes)),
        "unsupported format or feature: password options are only supported for .zip"
    );
    assert_eq!(
        refusal_text(compress_target(out("a.zip"), &names(&["a"]), 2, false, false, None, &zipcrypto)),
        "unsupported format or feature: compression --jobs > 1 is not supported with ZipCrypto"
    );
    assert_eq!(
        refusal_text(compress_target(out("a.xz"), &names(&["d"]), 1, true, true, Some(1), &aes)),
        "unsupported format or feature: password options are only supported for .zip"
    );
}

#[test]
fn two_passes_run_in_order_and_publish_only_an_unchanged_archive() {
    let digest = [7u8; 32];
    let (state, action) = two_pass_start();
    assert!(matches!(state, TwoPassState::Start));
    assert_eq!(action, TwoPassAction::TakeDigest);
    let (state, action) = two_pass_step(state, TwoPassEvent::Digest(digest), ArchiveStage::Extraction, "a.tar").unwrap();
    assert_eq!(action, TwoPassAction::RunFirstPass);
    let (state, action) = two_pass_step(state, TwoPassEvent::PassDone, ArchiveStage::Extraction, "a.tar").unwrap();
    assert_eq!(action, TwoPassAction::RunSecondPass);
    let (verifying, action) = two_pass_step(state, TwoPassEvent::PassDone, ArchiveStage::Extraction, "a.tar").unwrap();
    assert_eq!(action, TwoPassAction::TakeDigest);
    let (done, action) = two_pass_step(verifying, TwoPassEvent::Digest(digest), ArchiveStage::Extraction, "a.tar").unwrap();
    assert!(matches!(done, TwoPassState::Publishable));
    assert_eq!(action, TwoPassAction::Publish);
    let mut changed = digest;
    changed[3] = 0;
    match two_pass_step(verifying, TwoPassEvent::Digest(changed), ArchiveStage::Extraction, "a.tar") {
        Err(ArcaError::Integrity(m)) => assert_eq!(m, "archive changed between validation and extraction"),
        other => panic!("unexpected {other:?}"),
    }
    let (again, action) = two_pass_step(verifying, TwoPassEvent::PassDone, ArchiveStage::Testing, "a.tar").unwrap();
    assert!(matches!(again, TwoPassState::Verifying { .. }));
    assert_eq!(action, TwoPassAction::TakeDigest);
}
