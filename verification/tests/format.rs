use arca::error::ArcaError;
use arca::format::{
    archive_file_extensions, archive_formats, default_compress_output, descriptor_for_extension,
    descriptor_for_format, detect_format, format_kind_label, normalize_output_file_name, required_format,
    single_stream_output_name, strip_archive_suffix, CompressionKind, FormatKind,
};

#[test]
fn longest_suffix_wins() {
    let fmt = required_format("backup.tar.gz").unwrap();
    assert_eq!(fmt.kind, FormatKind::TarCompressed(CompressionKind::Gzip));
}

#[test]
fn registered_formats_expose_file_extensions_and_signatures() {
    let zip = descriptor_for_extension("zip").unwrap();

    assert_eq!(zip.id, "zip");
    assert_eq!(zip.kind, FormatKind::Zip);
    assert!(zip.supports_create());
    assert!(zip.supports_direct_edit());
    assert!(zip.signatures.iter().any(|signature| signature.bytes == b"PK\x03\x04"));
}

#[test]
fn archive_extensions_are_derived_from_registered_formats() {
    let extensions = archive_file_extensions().into_iter().collect::<Vec<_>>();

    assert_eq!(extensions, vec!["zip", "tar", "tgz", "tbz2", "txz", "gz", "bz2", "xz"]);
}

#[test]
fn suffixless_output_defaults_to_zip() {
    let out = normalize_output_file_name("backup").unwrap();
    assert_eq!(out, "backup.zip");
}

#[test]
fn unknown_suffix_fails() {
    let err = normalize_output_file_name("backup.rar").unwrap_err();
    assert!(matches!(err, ArcaError::Unsupported(_)));
}

#[test]
fn suffix_detection_ignores_ascii_case() {
    let fmt = detect_format("BACKUP.TGZ").unwrap();
    assert_eq!(fmt.kind, FormatKind::TarCompressed(CompressionKind::Gzip));
    assert_eq!(fmt.suffix, ".tgz");
    assert!(detect_format("notes.txt").is_none());
    assert!(matches!(required_format("notes.txt"), Err(ArcaError::Unsupported(_))));
}

#[test]
fn single_stream_suffixes_are_detected_after_tar_forms() {
    assert_eq!(detect_format("a.gz").unwrap().kind, FormatKind::SingleStream(CompressionKind::Gzip));
    assert_eq!(detect_format("a.tar.xz").unwrap().kind, FormatKind::TarCompressed(CompressionKind::Xz));
    assert_eq!(detect_format("a.tar").unwrap().kind, FormatKind::Tar);
    assert_eq!(detect_format("a.zip").unwrap().kind, FormatKind::Zip);
}

#[test]
fn descriptors_round_trip_through_their_formats() {
    for descriptor in archive_formats() {
        let found = descriptor_for_format(detect_format(&format!("x{}", descriptor.suffixes[0])).unwrap());
        assert_eq!(found.unwrap().id, descriptor.id);
    }
    assert!(descriptor_for_extension("rar").is_none());
    assert_eq!(descriptor_for_extension(".tgz").unwrap().id, "tar.gz");
}

#[test]
fn compress_output_defaults() {
    assert!(matches!(default_compress_output(&vec![]), Err(ArcaError::Usage(_))));
    assert_eq!(default_compress_output(&vec![Some("docs".to_owned())]).unwrap(), "docs.zip");
    assert_eq!(
        default_compress_output(&vec![Some("a".to_owned()), Some("b".to_owned())]).unwrap(),
        "archive.zip"
    );
    assert!(matches!(default_compress_output(&vec![None]), Err(ArcaError::NonUtf8Path(_))));
    assert_eq!(normalize_output_file_name("keep.tar.bz2").unwrap(), "keep.tar.bz2");
}

#[test]
fn single_stream_outputs_drop_the_suffix() {
    assert_eq!(single_stream_output_name("data.txt.gz").unwrap(), "data.txt");
    assert!(matches!(single_stream_output_name("data.tar.gz"), Err(ArcaError::Usage(_))));
    assert!(matches!(single_stream_output_name("data.rar"), Err(ArcaError::Unsupported(_))));
    let zip = detect_format("pack.zip").unwrap();
    assert_eq!(strip_archive_suffix("pack.zip", zip), "pack");
    assert_eq!(strip_archive_suffix(".zip", zip), "archive");
}

#[test]
fn format_labels() {
    assert_eq!(format_kind_label(FormatKind::TarCompressed(CompressionKind::Bzip2)), "tar.bz2");
    assert_eq!(format_kind_label(FormatKind::SingleStream(CompressionKind::Xz)), "xz");
    assert_eq!(format_kind_label(FormatKind::Zip), "zip");
}
