use arca::cli::{
    confirmed_password, encryption_for, failure_status, list_header, pad_left, pad_right, parse_jobs,
    password_from_line, password_source, prompted_password, validate_archive_password_flags, PasswordSource,
};
use arca::error::ArcaError;
use arca::format::detect_format;
use arca::options::{Encryption, Password};
use arca::publish::{
    check_container_destination, check_copied_size, check_file_target, deepest_first_order, staged_file_publish,
    ExistingTarget, FilePublish,
};

#[test]
fn password_flags_are_exclusive() {
    assert!(matches!(password_source(true, true), Err(ArcaError::Usage(_))));
    assert_eq!(password_source(true, false).unwrap(), PasswordSource::Prompt);
    assert_eq!(password_source(false, true).unwrap(), PasswordSource::Stdin);
    assert_eq!(password_source(false, false).unwrap(), PasswordSource::NotRequested);
}

#[test]
fn passwords_only_for_zip_archives() {
    let tar = detect_format("a.tar").unwrap();
    let zip = detect_format("a.zip").unwrap();
    assert!(matches!(validate_archive_password_flags(tar, true, false), Err(ArcaError::Unsupported(_))));
    assert!(validate_archive_password_flags(tar, false, false).is_ok());
    assert!(validate_archive_password_flags(zip, true, false).is_ok());
}

#[test]
fn encryption_follows_password_and_zipcrypto() {
    assert!(matches!(encryption_for(None, true), Err(ArcaError::Usage(_))));
    assert!(matches!(encryption_for(None, false), Ok(Encryption::Unencrypted)));
    assert!(matches!(encryption_for(Some(Password::new(b"p".to_vec())), false), Ok(Encryption::Aes256(_))));
    assert!(matches!(encryption_for(Some(Password::new(b"p".to_vec())), true), Ok(Encryption::ZipCrypto(_))));
}

#[test]
fn passwords_from_stdin_and_prompts() {
    assert_eq!(password_from_line(b"secret\r\n".to_vec()).as_bytes(), b"secret");
    assert_eq!(password_from_line(b"secret\n".to_vec()).as_bytes(), b"secret");
    assert_eq!(password_from_line(b"secret".to_vec()).as_bytes(), b"secret");
    assert_eq!(prompted_password("pw".to_string()).as_bytes(), b"pw");
    assert_eq!(confirmed_password("a".to_string(), "a".to_string()).unwrap().as_bytes(), b"a");
    assert!(matches!(confirmed_password("a".to_string(), "b".to_string()), Err(ArcaError::Password(_))));
}

#[test]
fn jobs_must_be_positive_integers() {
    assert_eq!(parse_jobs("4"), Ok(4));
    assert!(parse_jobs("0").is_err());
    assert!(parse_jobs("x").is_err());
}

#[test]
fn listing_columns_are_padded() {
    assert_eq!(pad_left("ab", 4), "  ab");
    assert_eq!(pad_right("ab", 4), "ab  ");
    assert_eq!(pad_left("abcdef", 4), "abcdef");
    assert_eq!(list_header(), "        size    packed  type        path");
}

#[test]
fn failures_map_to_exit_statuses() {
    assert_eq!(failure_status(Some(&ArcaError::Usage("x".to_string()))), 2);
    assert_eq!(failure_status(Some(&ArcaError::Security("x".to_string()))), 4);
    assert_eq!(failure_status(None), 1);
}

#[test]
fn publish_targets_are_checked() {
    assert!(check_file_target(ExistingTarget::Missing, false, "t").is_ok());
    assert!(matches!(check_file_target(ExistingTarget::File, false, "t"), Err(ArcaError::Usage(_))));
    assert!(check_file_target(ExistingTarget::File, true, "t").is_ok());
    assert!(matches!(check_file_target(ExistingTarget::Symlink, true, "t"), Err(ArcaError::Security(_))));
    assert_eq!(staged_file_publish(ExistingTarget::Missing, false, "t").unwrap(), FilePublish::Rename);
    assert_eq!(staged_file_publish(ExistingTarget::File, true, "t").unwrap(), FilePublish::Replace);
    assert!(matches!(check_container_destination(ExistingTarget::Symlink, true, "d"), Err(ArcaError::Security(_))));
    assert!(check_container_destination(ExistingTarget::Directory, true, "d").is_ok());
    assert!(matches!(check_copied_size(3, 4, "a"), Err(ArcaError::Integrity(_))));
}

#[test]
fn directory_metadata_is_applied_deepest_first() {
    assert_eq!(deepest_first_order(&vec![1, 3, 2, 3]), vec![1, 3, 2, 0]);
    assert!(deepest_first_order(&Vec::new()).is_empty());
}

#[test]
fn single_file_extraction_may_not_overwrite_its_archive() {
    let archive: Vec<Vec<u8>> = vec![b"/".to_vec(), b"tmp".to_vec(), b"a.gz".to_vec()];
    let other: Vec<Vec<u8>> = vec![b"/".to_vec(), b"tmp".to_vec(), b"a".to_vec()];
    match arca::publish::check_extract_output(&archive, &archive, "/tmp/a.gz") {
        Err(ArcaError::Usage(message)) => assert_eq!(message, "extraction output cannot equal archive: /tmp/a.gz"),
        other => panic!("unexpected {other:?}"),
    }
    assert!(arca::publish::check_extract_output(&archive, &other, "/tmp/a").is_ok());
}

#[test]
fn non_zip_extract_and_test_reject_password_flags_before_reading_password() {
    for command_name in ["extract", "test"] {
        for flag in ["--password", "--password-stdin"] {
            let format = detect_format("archive.tar").unwrap();
            let err = validate_archive_password_flags(format, flag == "--password", flag == "--password-stdin")
                .unwrap_err();
            assert_eq!(
                failure_status(Some(&err)),
                3,
                "command: {command_name}, flag: {flag}\nstderr:\n{}",
                err.message()
            );
            assert!(
                err.message().contains("password options are only supported for .zip"),
                "stderr did not explain unsupported password flag {flag} for {command_name}:\n{}",
                err.message()
            );
        }
    }
}

#[test]
fn zipcrypto_needs_a_password_flag() {
    let zip = detect_format("compat.zip").unwrap();
    match arca::cli::validate_compress_encryption_flags(zip, false, false, true) {
        Err(ArcaError::Usage(message)) => assert_eq!(message, "--zipcrypto requires --password or --password-stdin"),
        other => panic!("unexpected {other:?}"),
    }
    let tar = detect_format("archive.tar").unwrap();
    for (password, stdin, zipcrypto) in [(true, false, false), (false, true, false), (false, false, true)] {
        match arca::cli::validate_compress_encryption_flags(tar, password, stdin, zipcrypto) {
            Err(ArcaError::Unsupported(message)) => assert_eq!(message, "password options are only supported for .zip"),
            other => panic!("unexpected {other:?}"),
        }
    }
}
