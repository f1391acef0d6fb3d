use arca::archive::{EntryKind, ScannedEntry};
use arca::cancel::{CancellationToken, OperationContext, ProgressSink};
use arca::digest::{hex_digest, path_identity_digest, target_lock_file_name, StreamDigest};
use arca::error::{ArcaError, ExitCode, ZipFailure};
use arca::format::detect_format;
use arca::limits::{check_scanned_entry_limits, parse_positive_u64, EnvSetting, ResourceLimits};
use arca::manifest::{
    assemble_manifest, check_listed_symlink_target, direct_edit_status, inspect_summary, listing_totals, zip_list_entry,
    ListEntry,
};
use arca::options::{Encryption, Password};
use arca::progress::{
    check_payload_chunk, effective_jobs, should_emit_core_progress, validate_jobs, CoreProgress, CoreProgressPhase,
    ReadLimit, SharedProgressCounter,
};
use arca::scan::{scan_tar_entry, zip_kind, HeaderText, ManifestScan, TarEntryType};
use arca::text::decimal_string;
use arca::time::{civil_from_days, days_from_civil, UnixTime};
use arca::writing::{
    compression_level, default_mode, unix_time_from_zip_parts, worker_chunk_size, zip_datetime_from_unix_time,
    zip_datetime_to_unix_time, zip_directory_name, zip_parts_from_unix_time, ZipTimeParts,
};
use arca::plan::{ArchiveEntry, SourceSnapshot};
use arca::writing::{entry_mode, tar_mtime};
use std::path::PathBuf;

#[test]
fn password_debug_output_is_redacted() {
    let password = Password::new(b"secret".to_vec());
    let rendered = format!("{password:?}");
    assert_eq!(rendered, "Password(<redacted>)");

    let rendered = format!("{:?}", Encryption::Aes256(password));
    assert!(!rendered.contains("secret"));
}

#[test]
fn password_keeps_its_bytes() {
    let password = Password::new(b"pw".to_vec());
    assert_eq!(password.as_bytes(), b"pw");
    assert!(matches!(Encryption::default(), Encryption::Unencrypted));
}

#[test]
fn exit_codes_follow_error_classes() {
    assert_eq!(ExitCode::from_error(&ArcaError::Usage("x".into())).status(), 2);
    assert_eq!(ExitCode::from_error(&ArcaError::Zip(ZipFailure::InvalidPassword)).status(), 5);
    assert_eq!(ExitCode::from_error(&ArcaError::Zip(ZipFailure::PasswordRequired)).status(), 5);
    assert_eq!(ExitCode::from_error(&ArcaError::Zip(ZipFailure::Other("bad".into()))).status(), 6);
    assert_eq!(ExitCode::from_error(&ArcaError::Busy("x".into())).status(), 130);
    assert_eq!(ExitCode::from_error(&ArcaError::IoPlain("x".into())).status(), 1);
    assert_eq!(
        ArcaError::Io { path: "a.zip".into(), message: "denied".into() }.message(),
        "I/O error at a.zip: denied"
    );
    assert_eq!(ArcaError::Zip(ZipFailure::InvalidPassword).message(), "zip error: provided password is incorrect");
}

#[test]
fn canceled_context_reports_canceled() {
    let token = CancellationToken::new();
    let context: OperationContext<fn(CoreProgress)> = OperationContext::new(token.clone());
    assert!(context.check_cancelled().is_ok());
    token.cancel();
    assert!(context.cancellation().is_canceled());
    assert!(matches!(context.check_cancelled(), Err(ArcaError::Canceled(_))));
}

#[test]
fn payload_copy_stops_at_the_limit() {
    assert_eq!(check_payload_chunk("a.zip", 10, 5, 20).unwrap(), 15);
    assert_eq!(check_payload_chunk("a.zip", 10, 10, 20).unwrap(), 20);
    let err = check_payload_chunk("a.zip", 10, 11, 20).unwrap_err();
    match err {
        ArcaError::Security(message) => assert_eq!(message, "archive payload size limit exceeded in a.zip: > 20"),
        other => panic!("unexpected {other:?}"),
    }
    assert_eq!(check_payload_chunk("a.zip", 30, 0, 20).unwrap(), 30);
}

#[test]
fn read_limit_counts_down() {
    let mut limit = ReadLimit::new(5);
    assert_eq!(limit.window(64), 5);
    limit.consume(3);
    assert_eq!(limit.window(64), 2);
    assert_eq!(limit.window(1), 1);
    limit.consume(2);
    assert!(limit.exhausted());
    assert_eq!(limit.exceeded_message(), "archive unpacked stream size limit exceeded: 5");
}

#[test]
fn progress_counter_saturates_at_total() {
    let mut counter = SharedProgressCounter::new(CoreProgressPhase::Writing, "Compressing", 10);
    assert_eq!(counter.increment_by(4), 4);
    assert_eq!(counter.increment_by(u64::MAX), 10);
    assert_eq!(counter.finish(), 10);
    let report = counter.report();
    assert_eq!(report.processed, Some(10));
    assert_eq!(report.total, Some(10));
    assert_eq!(report.message, "Compressing");
}

#[test]
fn progress_reports_are_thinned_for_long_operations() {
    let report = |processed, total| CoreProgress::new(CoreProgressPhase::Writing, "w".into()).with_counts(processed, Some(total));
    assert!(should_emit_core_progress(&report(37, 100)));
    assert!(should_emit_core_progress(&report(0, 1000)));
    assert!(should_emit_core_progress(&report(20, 1000)));
    assert!(!should_emit_core_progress(&report(21, 1000)));
    assert!(should_emit_core_progress(&report(1000, 1000)));
    assert!(should_emit_core_progress(&CoreProgress::new(CoreProgressPhase::Committing, "c".into())));
    let committing = CoreProgress::new(CoreProgressPhase::Committing, "c".into()).with_counts(21, Some(1000));
    assert!(should_emit_core_progress(&committing));
}

#[test]
fn jobs_are_bounded_by_work() {
    assert_eq!(effective_jobs(0, 5), 1);
    assert_eq!(effective_jobs(8, 3), 3);
    assert_eq!(effective_jobs(4, 0), 1);
    assert!(matches!(validate_jobs(0), Err(ArcaError::Usage(_))));
    assert!(validate_jobs(1).is_ok());
}

#[test]
fn resource_limits_and_settings() {
    let limits = ResourceLimits::defaults();
    assert!(check_scanned_entry_limits("d", EntryKind::Directory, u64::MAX, limits).is_ok());
    assert!(check_scanned_entry_limits("l", EntryKind::Symlink, 20_000, limits).is_err());
    assert!(limits.check_compression_ratio("x", 10_001, 1).is_err());
    assert!(limits.check_compression_ratio("x", 10_000, 1).is_ok());
    assert!(limits.check_compression_ratio("x", 1, 0).is_err());
    assert_eq!(limits.add_total(5, "x", 6).unwrap(), 11);
    assert_eq!(parse_positive_u64("ARCA_MAX_ENTRIES", "128").unwrap(), 128);
    assert!(parse_positive_u64("ARCA_MAX_ENTRIES", "0").is_err());
    assert!(parse_positive_u64("ARCA_MAX_ENTRIES", "12x").is_err());
    assert!(parse_positive_u64("ARCA_MAX_ENTRIES", "18446744073709551616").is_err());
}

fn security_text(result: Result<impl std::fmt::Debug, ArcaError>) -> String {
    match result {
        Err(ArcaError::Security(m)) => m,
        other => panic!("unexpected {other:?}"),
    }
}

#[test]
fn limit_refusals_name_the_value_and_the_limit() {
    let limits = ResourceLimits {
        max_entries: 2,
        max_entry_unpacked_bytes: 10,
        max_total_unpacked_bytes: 20,
        max_compression_ratio: 4,
        max_symlink_target_bytes: 3,
    };
    assert!(limits.check_entry_count(2).is_ok());
    assert_eq!(security_text(limits.check_entry_count(3)), "archive entry count limit exceeded: 3 > 2");
    assert_eq!(security_text(limits.check_entry_size("a.txt", 11)), "archive entry size limit exceeded for a.txt: 11 > 10");
    assert_eq!(security_text(limits.add_total(15, "b.txt", 6)), "archive unpacked size limit exceeded at b.txt: 21 > 20");
    assert_eq!(security_text(limits.add_total(u64::MAX, "b.txt", 1)), "archive unpacked size overflow at b.txt");
    assert_eq!(
        security_text(limits.check_compression_ratio("c.bin", 9, 2)),
        "archive compression ratio limit exceeded for c.bin: 9/2 > 4"
    );
    assert_eq!(
        security_text(limits.check_compression_ratio("c.bin", 1, 0)),
        "archive compression ratio limit exceeded for c.bin: 1/0 > 4"
    );
    assert_eq!(
        security_text(limits.check_symlink_target_size("l", 4)),
        "symlink target size limit exceeded for l: 4 > 3"
    );
    assert_eq!(
        security_text(check_scanned_entry_limits("l", EntryKind::Symlink, 5, limits)),
        "symlink target size limit exceeded for l: 5 > 3"
    );
    assert_eq!(
        security_text(check_scanned_entry_limits("f", EntryKind::File, 12, limits)),
        "archive entry size limit exceeded for f: 12 > 10"
    );
}

#[test]
fn stream_digest_matches_the_digest_of_all_bytes() {
    let mut digest = StreamDigest::start();
    digest.feed(b"ab");
    digest.feed(b"");
    digest.feed(b"c");
    assert_eq!(digest.bytes_fed(), 3);
    assert_eq!(
        hex_digest(digest.finish()),
        "ba7816bf8f01cfea414140de5dae2223b00361a396177a9cb410ff61f20015ad"
    );
    assert_eq!(
        hex_digest(StreamDigest::start().finish()),
        "e3b0c44298fc1c149afbf4c8996fb92427ae41e4649b934ca495991b7852b855"
    );
}

#[test]
fn inspect_summary_refuses_a_changed_archive_and_carries_the_digest() {
    let zip = detect_format("input.zip").unwrap();
    let entries = vec![zip_list_entry("README.txt".to_owned(), EntryKind::File, 5, 3, false)];
    let mut before = [0u8; 32];
    before[0] = 0xab;
    let mut after = before;
    after[31] = 1;
    match inspect_summary(PathBuf::from("input.zip"), "input.zip".to_owned(), zip, before, after, entries.clone(), "input.zip") {
        Err(ArcaError::Integrity(m)) => assert_eq!(m, "archive changed while listing: input.zip"),
        other => panic!("unexpected {other:?}"),
    }
    let m = inspect_summary(PathBuf::from("input.zip"), "input.zip".to_owned(), zip, before, before, entries, "input.zip")
        .unwrap();
    assert_eq!(m.digest_sha256, format!("ab{}", "00".repeat(31)));
    assert_eq!(m.entry_count, 1);
    assert_eq!(m.total_uncompressed_size, 5);
    assert_eq!(m.format_kind, "zip");
    assert_eq!(m.format_suffix, ".zip");
}

#[test]
fn zip_scan_accepts_entries_in_order() {
    let limits = ResourceLimits::defaults();
    let scan = ManifestScan::new(limits);
    let scan = scan.add_zip_entry("dir/", true, None, 0, 0, None).unwrap();
    let scan = scan.add_zip_entry("dir/a.txt", false, Some(0o100755), 10, 5, None).unwrap();
    let scan = scan.add_zip_entry("/", false, None, 0, 0, None).unwrap();
    let entries = scan.finish_zip("a.zip", 100).unwrap();
    assert_eq!(entries.len(), 2);
    assert_eq!(entries[0].path, "dir");
    assert_eq!(entries[0].kind, EntryKind::Directory);
    assert_eq!(entries[1].mode, Some(0o755));
    assert_eq!(entries[1].size, 10);
}

#[test]
fn zip_scan_refuses_collisions_and_bombs() {
    let limits = ResourceLimits::defaults();
    let scan = ManifestScan::new(limits).add_zip_entry("Readme.txt", false, None, 1, 1, None).unwrap();
    assert!(scan.add_zip_entry("README.TXT", false, None, 1, 1, None).is_err());
    let scan = ManifestScan::new(limits);
    assert!(scan.add_zip_entry("bomb.bin", false, None, 1_000_000, 1, None).is_err());
    let scan = ManifestScan::new(limits);
    assert!(scan.add_zip_entry("../escape.txt", false, None, 1, 1, None).is_err());
    assert_eq!(zip_kind(false, Some(0o120777)), EntryKind::Symlink);
    assert_eq!(zip_kind(true, Some(0o120777)), EntryKind::Directory);
    assert_eq!(zip_kind(false, None), EntryKind::File);
}

#[test]
fn tar_entries_are_read_from_their_headers() {
    let limits = ResourceLimits::defaults();
    let entry = scan_tar_entry(
        &HeaderText::Text("dir/tool".into()),
        TarEntryType::File,
        Ok(7),
        Ok(None),
        Some(0o100755),
        Some(1_700_000_002),
        limits,
    )
    .unwrap();
    assert_eq!(entry.path, "dir/tool");
    assert_eq!(entry.size, 7);
    assert_eq!(entry.mode, Some(0o755));
    assert_eq!(entry.modified, Some(UnixTime { seconds: 1_700_000_002, nanos: 0 }));
    let link = scan_tar_entry(
        &HeaderText::Text("link".into()),
        TarEntryType::Symlink,
        Ok(0),
        Ok(Some(HeaderText::Text("target-dir".into()))),
        None,
        None,
        limits,
    )
    .unwrap();
    assert_eq!(link.size, 10);
    assert_eq!(link.link_target.as_deref(), Some("target-dir"));
    let hard = scan_tar_entry(&HeaderText::Text("h".into()), TarEntryType::HardLink, Ok(0), Ok(None), None, None, limits);
    assert!(matches!(hard, Err(ArcaError::Security(_))));
    let special = scan_tar_entry(&HeaderText::Text("f".into()), TarEntryType::Other, Ok(0), Ok(None), None, None, limits);
    assert!(matches!(special, Err(ArcaError::Security(_))));
    let bad = scan_tar_entry(&HeaderText::NotUtf8("bad-\u{fffd}".into()), TarEntryType::File, Ok(0), Ok(None), None, None, limits);
    assert!(matches!(bad, Err(ArcaError::NonUtf8Path(_))));
    let escaping = scan_tar_entry(
        &HeaderText::Text("link".into()),
        TarEntryType::Symlink,
        Ok(0),
        Ok(Some(HeaderText::Text("../outside".into()))),
        None,
        None,
        limits,
    );
    assert!(matches!(escaping, Err(ArcaError::Security(_))));
}

#[test]
fn tar_scan_counts_entries() {
    let limits = ResourceLimits { max_entries: 1, ..ResourceLimits::defaults() };
    let make = |p: &str| ScannedEntry { path: p.into(), kind: EntryKind::File, link_target: None, size: 1, mode: None, modified: None };
    let scan = ManifestScan::new(limits).add_tar_entry(make("a")).unwrap();
    assert!(matches!(scan.add_tar_entry(make("b")), Err(ArcaError::Security(_))));
}

#[test]
fn listing_totals_and_manifest() {
    let entries = vec![
        zip_list_entry("a.txt".into(), EntryKind::File, 10, 4, false),
        zip_list_entry("b/".into(), EntryKind::Directory, 0, 0, true),
    ];
    let totals = listing_totals(&entries).unwrap();
    assert_eq!(totals.uncompressed, 10);
    assert_eq!(totals.compressed, Some(4));
    assert_eq!(totals.encrypted, 1);
    let mut tar_like = entries.clone();
    tar_like.push(ListEntry { path: "c".into(), entry_type: "file".into(), uncompressed_size: 1, compressed_size: None, encrypted: false });
    assert_eq!(listing_totals(&tar_like).unwrap().compressed, None);
    let huge = vec![
        ListEntry { path: "x".into(), entry_type: "file".into(), uncompressed_size: u64::MAX, compressed_size: None, encrypted: false },
        ListEntry { path: "y".into(), entry_type: "file".into(), uncompressed_size: 1, compressed_size: None, encrypted: false },
    ];
    assert!(matches!(listing_totals(&huge), Err(ArcaError::Security(_))));
    let format = detect_format("input.zip").unwrap();
    let manifest = assemble_manifest(PathBuf::from("input.zip"), "input.zip".into(), format, "ab".into(), entries).unwrap();
    assert_eq!(manifest.format_kind, "zip");
    assert_eq!(manifest.format_suffix, ".zip");
    assert_eq!(manifest.entry_count, 2);
    assert!(!manifest.direct_edit.allowed);
    assert_eq!(manifest.direct_edit.reason.as_deref(), Some("Encrypted ZIP archives are read-only in the GUI"));
}

#[test]
fn direct_edit_is_for_plain_zip_only() {
    let zip = detect_format("a.zip").unwrap();
    let tar = detect_format("a.tar").unwrap();
    assert!(direct_edit_status(zip, 0).allowed);
    assert!(direct_edit_status(zip, 0).reason.is_none());
    assert!(!direct_edit_status(tar, 0).allowed);
}

#[test]
fn listed_symlink_targets_are_checked() {
    let limits = ResourceLimits { max_symlink_target_bytes: 4, ..ResourceLimits::defaults() };
    assert!(check_listed_symlink_target("a.zip", "abcd", limits).is_ok());
    let err = check_listed_symlink_target("a.zip", "abcde", limits).unwrap_err();
    match err {
        ArcaError::Security(m) => assert_eq!(m, "symlink target size limit exceeded in a.zip: 5 > 4"),
        other => panic!("unexpected {other:?}"),
    }
    assert!(check_listed_symlink_target("a.zip", "../x", ResourceLimits::defaults()).is_err());
    match check_listed_symlink_target("a.zip", "/etc/x", ResourceLimits::defaults()).unwrap_err() {
        ArcaError::Security(m) => assert_eq!(m, "absolute symlink target is not allowed: /etc/x"),
        other => panic!("unexpected {other:?}"),
    }
}

#[test]
fn digests_print_as_lowercase_hex() {
    let mut digest = [0u8; 32];
    digest[0] = 0xab;
    digest[31] = 0x0f;
    let text = hex_digest(digest);
    assert_eq!(text.len(), 64);
    assert!(text.starts_with("ab00"));
    assert!(text.ends_with("000f"));
}

#[test]
fn lock_names_follow_the_target_digest() {
    let digest = path_identity_digest(b"/tmp/archive.zip");
    assert_eq!(digest.len(), 64);
    assert_ne!(digest, path_identity_digest(b"/tmp/other.zip"));
    assert_eq!(target_lock_file_name(b"/tmp/archive.zip"), format!(".arca-lock-{digest}.lock"));
    assert_eq!(digest, "7d2ec0e01f9c1023d0c0738e4949441ffe603cc7a882628965f067fac984263f");
}

#[test]
fn calendar_conversions() {
    assert_eq!(civil_from_days(0), Some((1970, 1, 1)));
    assert_eq!(civil_from_days(19_723), Some((2024, 1, 1)));
    assert_eq!(civil_from_days(-1), Some((1969, 12, 31)));
    assert_eq!(days_from_civil(2000, 3, 1), Some(11_017));
    assert_eq!(days_from_civil(1970, 1, 1), Some(0));
    assert_eq!(days_from_civil(2024, 13, 1), None);
    assert_eq!(days_from_civil(2024, 2, 0), None);
    for days in [-800_000i64, -1, 0, 59, 60, 11_016, 19_782, 2_932_896] {
        let (y, m, d) = civil_from_days(days).unwrap();
        assert_eq!(days_from_civil(y, m, d), Some(days));
    }
    assert_eq!(civil_from_days(i64::MAX), None);
}

#[test]
fn epoch_offsets_round_trip() {
    let before = UnixTime::from_epoch_offset(true, 1, 250_000_000);
    assert_eq!(before, UnixTime { seconds: -2, nanos: 750_000_000 });
    assert_eq!(before.to_epoch_offset(), (true, 1, 250_000_000));
    let after = UnixTime::from_epoch_offset(false, 5, 7);
    assert_eq!(after.to_epoch_offset(), (false, 5, 7));
    assert_eq!(UnixTime { seconds: 5, nanos: 2_000_000_001 }.to_epoch_offset(), (false, 7, 1));
    assert_eq!(UnixTime::from_epoch_offset(true, 3, 0), UnixTime { seconds: -3, nanos: 0 });
    assert_eq!(UnixTime::from_epoch_offset(false, u64::MAX, 0).seconds, i64::MAX);
}

#[test]
fn zip_timestamps() {
    let time = UnixTime { seconds: 1_700_000_000, nanos: 0 };
    let parts = zip_parts_from_unix_time(time).unwrap();
    assert_eq!(parts, ZipTimeParts { year: 2023, month: 11, day: 14, hour: 22, minute: 13, second: 20 });
    let stamp = zip_datetime_from_unix_time(time).unwrap();
    assert_eq!(zip_datetime_to_unix_time(&stamp), Some(time));
    assert!(zip_parts_from_unix_time(UnixTime { seconds: 0, nanos: 0 }).is_none());
    assert_eq!(unix_time_from_zip_parts(ZipTimeParts { year: 1980, month: 1, day: 1, hour: 0, minute: 0, second: 0 }), Some(UnixTime { seconds: 315_532_800, nanos: 0 }));
    assert_eq!(unix_time_from_zip_parts(ZipTimeParts { year: 1980, month: 0, day: 1, hour: 0, minute: 0, second: 0 }), None);
}

#[test]
fn write_settings() {
    assert_eq!(default_mode(EntryKind::File), 0o644);
    assert_eq!(default_mode(EntryKind::Directory), 0o755);
    assert_eq!(compression_level(None), 6);
    assert_eq!(compression_level(Some(12)), 9);
    assert_eq!(compression_level(Some(1)), 1);
    assert_eq!(zip_directory_name("sub"), "sub/");
    assert_eq!(worker_chunk_size(10, 4), 3);
    assert_eq!(worker_chunk_size(8, 4), 2);
    assert_eq!(worker_chunk_size(0, 4), 0);
    assert_eq!(decimal_string(0), "0");
    assert_eq!(decimal_string(1_234_567_890), "1234567890");
}

#[test]
fn zip_time_fields_turn_back_into_the_same_second() {
    for seconds in [315_532_800_i64, 1_700_000_001, 4_354_819_199] {
        let time = UnixTime { seconds, nanos: 123 };
        let parts = zip_parts_from_unix_time(time).unwrap();
        assert_eq!(unix_time_from_zip_parts(parts), Some(UnixTime { seconds, nanos: 0 }));
    }
    assert!(zip_parts_from_unix_time(UnixTime { seconds: 315_532_799, nanos: 0 }).is_none());
}

#[test]
fn tar_headers_give_back_mtime_and_mode() {
    let snapshot = SourceSnapshot {
        kind: EntryKind::File,
        len: 3,
        modified: Some(UnixTime { seconds: 1_700_000_000, nanos: 999 }),
        mode: Some(0o640),
        dev: 0,
        ino: 0,
        changed: UnixTime { seconds: 0, nanos: 0 },
    };
    let entry = ArchiveEntry {
        source: PathBuf::from("a.txt"),
        archive_path: "a.txt".to_string(),
        kind: EntryKind::File,
        symlink_target: None,
        size: 3,
        snapshot,
    };
    let scanned = scan_tar_entry(
        &HeaderText::Text("a.txt".to_string()),
        TarEntryType::File,
        Ok(3),
        Ok(None),
        Some(entry_mode(&entry)),
        tar_mtime(&entry),
        ResourceLimits::defaults(),
    )
    .unwrap();
    assert_eq!(scanned.modified, Some(UnixTime { seconds: 1_700_000_000, nanos: 0 }));
    assert_eq!(scanned.mode, Some(0o640));
}

#[test]
fn zip_time_fields_survive_a_round_trip() {
    for (year, month, day, hour, minute, second) in
        [(1980, 1, 1, 0, 0, 0), (2000, 2, 29, 23, 59, 59), (2024, 12, 31, 12, 30, 1), (2107, 12, 31, 23, 59, 58)]
    {
        let parts = ZipTimeParts { year, month, day, hour, minute, second };
        let time = unix_time_from_zip_parts(parts).unwrap();
        let back = zip_parts_from_unix_time(time).unwrap();
        assert_eq!((back.year, back.month, back.day, back.hour, back.minute, back.second), (year, month, day, hour, minute, second));
    }
}

#[test]
fn valid_dates_survive_day_counts() {
    for (year, month, day) in [(1970, 1, 1), (1600, 2, 29), (1900, 2, 28), (2000, 3, 1), (-44, 3, 15), (9999, 12, 31)] {
        let days = days_from_civil(year, month, day).unwrap();
        assert_eq!(civil_from_days(days), Some((year, month, day)));
    }
}

#[test]
fn progress_reports_reach_the_sink() {
    let seen: std::sync::Arc<std::sync::Mutex<Vec<CoreProgress>>> = std::sync::Arc::new(std::sync::Mutex::new(Vec::new()));
    let record = seen.clone();
    let sink = ProgressSink::new(move |progress: CoreProgress| record.lock().unwrap().push(progress));
    let quiet = OperationContext::new(CancellationToken::new());
    quiet.progress(CoreProgressPhase::Starting, "nobody listens");
    let context = quiet.with_progress_sink(sink);
    context.progress(CoreProgressPhase::Starting, "Starting archive test");
    context.clone().progress_counts(CoreProgressPhase::Testing, "Testing ZIP entries", 3, Some(7));
    let seen = seen.lock().unwrap();
    assert_eq!(seen.len(), 2);
    assert_eq!(seen[0].phase, CoreProgressPhase::Starting);
    assert_eq!(seen[0].message, "Starting archive test");
    assert_eq!(seen[0].processed, None);
    assert_eq!(seen[1].phase, CoreProgressPhase::Testing);
    assert_eq!(seen[1].message, "Testing ZIP entries");
    assert_eq!(seen[1].processed, Some(3));
    assert_eq!(seen[1].total, Some(7));
}

#[test]
fn shared_progress_is_monotonic_and_capped() {
    let mut counter = SharedProgressCounter::new(CoreProgressPhase::Testing, "Testing ZIP entries", 40);
    let mut last = 0;
    for amount in [0u64, 7, 1, 13, 0, 25, 3] {
        let now = counter.increment_by(amount);
        assert!(now >= last);
        assert!(now <= 40);
        last = now;
    }
    assert_eq!(last, 40);
}

#[test]
fn cancellation_result_follows_the_reading() {
    assert!(arca::cancel::cancellation_result(false).is_ok());
    match arca::cancel::cancellation_result(true) {
        Err(ArcaError::Canceled(message)) => assert_eq!(message, "operation was canceled"),
        other => panic!("unexpected {other:?}"),
    }
}

#[test]
fn each_limit_setting_replaces_only_its_own_default() {
    let unset = || EnvSetting::NotPresent;
    let limits = ResourceLimits::from_settings(&EnvSetting::Value("7".into()), &unset(), &unset(), &unset(), &unset()).unwrap();
    assert_eq!(limits.max_entries, 7);
    assert_eq!(limits.max_entry_unpacked_bytes, 17179869184);
    assert_eq!(limits.max_total_unpacked_bytes, 68719476736);
    assert_eq!(limits.max_compression_ratio, 10000);
    assert_eq!(limits.max_symlink_target_bytes, 16384);
    let limits = ResourceLimits::from_settings(&unset(), &unset(), &unset(), &unset(), &EnvSetting::Value("+12".into())).unwrap();
    assert_eq!(limits.max_symlink_target_bytes, 12);
    assert_eq!(limits.max_entries, 200000);
    match ResourceLimits::from_settings(&unset(), &unset(), &EnvSetting::Value("0".into()), &EnvSetting::NotUnicode, &unset()) {
        Err(ArcaError::Usage(message)) => assert_eq!(message, "ARCA_MAX_UNPACKED_BYTES must be a positive integer"),
        other => panic!("unexpected {other:?}"),
    }
    match ResourceLimits::from_settings(&unset(), &unset(), &unset(), &EnvSetting::NotUnicode, &unset()) {
        Err(ArcaError::Usage(message)) => assert_eq!(message, "ARCA_MAX_COMPRESSION_RATIO must be valid UTF-8"),
        other => panic!("unexpected {other:?}"),
    }
}

#[test]
fn zip_timestamps_keep_their_fields_with_even_seconds() {
    let time = UnixTime { seconds: 1_700_000_039, nanos: 0 };
    let stamp = zip_datetime_from_unix_time(time).unwrap();
    assert_eq!(stamp.second(), 58);
    let back = zip_datetime_to_unix_time(&stamp).unwrap();
    assert_eq!(back.seconds, 1_700_000_038);
    assert_eq!(back.nanos, 0);
}

#[test]
fn epoch_offsets_reach_the_ends_of_the_range() {
    let t = UnixTime::from_epoch_offset(true, i64::MAX as u64, 0);
    assert_eq!(t.seconds, -i64::MAX);
    assert_eq!(t.to_epoch_offset(), (true, i64::MAX as u64, 0));
    let t = UnixTime::from_epoch_offset(true, i64::MAX as u64, 1);
    assert_eq!(t.seconds, i64::MIN);
    assert_eq!(t.nanos, 999_999_999);
    assert_eq!(t.to_epoch_offset(), (true, i64::MAX as u64, 1));
}

#[test]
fn a_cloned_password_keeps_its_bytes() {
    let password = Password::new(b"s3cret".to_vec());
    assert_eq!(password.clone().as_bytes(), b"s3cret");
}
