use vstd::prelude::*;

use crate::archive::EntryKind;
use crate::error::{error_detail, ArcaError};
use crate::format::{
    auto_tar_output, auto_tar_replacement, default_compress_output, has_extension, lemma_longest_suffix_wins,
    normalize_output_file_name, required_format, spec_detect_format, ArchiveFormat, FormatKind,
};
use crate::options::Encryption;
use crate::progress::validate_jobs;
use crate::text::concat_str;

verus! {

broadcast use vstd::string::group_string_axioms;

/// The archive a compression writes: its file name and its format.
#[derive(Debug, Clone)]
pub struct CompressTarget {
    pub output_name: String,
    pub format: ArchiveFormat,
}

/// Why a compression is refused before anything is read or written: the
/// class of the error and its message.
pub enum CompressRefusal {
    Usage(Seq<char>),
    NonUtf8(Seq<char>),
    Unsupported(Seq<char>),
}

/// The output file name asked for, or the one derived from the inputs' file
/// names (refused where an input's name is not UTF-8 or there are no inputs).
pub open spec fn chosen_output_name(output_name: Option<String>, input_names: Seq<Option<String>>) -> Result<
    Seq<char>,
    CompressRefusal,
> {
    match output_name {
        Some(n) => Ok(n@),
        None => if input_names.len() == 0 {
            Err(CompressRefusal::Usage("compress requires at least one input"@))
        } else if input_names.len() == 1 {
            match input_names[0] {
                Some(n) => Ok(n@ + ".zip"@),
                None => Err(CompressRefusal::NonUtf8("input file name"@)),
            }
        } else {
            Ok("archive.zip"@)
        },
    }
}

/// The output name with `.zip` added where it has no extension at all.
pub open spec fn normalized_output_name(name: Seq<char>) -> Option<Seq<char>> {
    if spec_detect_format(name) is Some {
        Some(name)
    } else if !has_extension(name) {
        Some(name + ".zip"@)
    } else {
        None
    }
}

/// The checks on a format once the output name is settled: several jobs
/// only for ZIP, no level for plain tar, passwords only for ZIP, and no
/// parallel ZipCrypto.
pub open spec fn format_accepts(format: ArchiveFormat, jobs: usize, level: Option<u8>, encryption: Encryption) -> bool {
    &&& !(format.kind == FormatKind::Tar && level is Some)
    &&& (format.kind == FormatKind::Zip || encryption is Unencrypted)
    &&& !(jobs > 1 && encryption is ZipCrypto)
}

/// The message of the first of those checks that a format fails.
pub open spec fn format_refusal_text(format: ArchiveFormat, level: Option<u8>, encryption: Encryption) -> Seq<char> {
    if format.kind == FormatKind::Tar && level is Some {
        "--level is not supported for .tar"@
    } else if !(format.kind == FormatKind::Zip || encryption is Unencrypted) {
        "password options are only supported for .zip"@
    } else {
        "compression --jobs > 1 is not supported with ZipCrypto"@
    }
}

/// The format of a settled output name, checked against the options.
pub open spec fn accepted_format(
    name: Seq<char>,
    jobs: usize,
    level: Option<u8>,
    encryption: Encryption,
) -> Result<(Seq<char>, ArchiveFormat), CompressRefusal> {
    match spec_detect_format(name) {
        None => Err(CompressRefusal::Unsupported("unsupported archive suffix for "@ + name)),
        Some(f) => if format_accepts(f, jobs, level, encryption) {
            Ok((name, f))
        } else {
            Err(CompressRefusal::Unsupported(format_refusal_text(f, level, encryption)))
        },
    }
}

/// What a compression writes, or why it is refused, from the options alone.
pub open spec fn spec_compress_target(
    output_name: Option<String>,
    input_names: Seq<Option<String>>,
    jobs: usize,
    any_input_is_dir: bool,
    auto_tar: bool,
    level: Option<u8>,
    encryption: Encryption,
) -> Result<(Seq<char>, ArchiveFormat), CompressRefusal> {
    if jobs == 0 {
        Err(CompressRefusal::Usage("--jobs must be at least 1"@))
    } else {
        match chosen_output_name(output_name, input_names) {
            Err(e) => Err(e),
            Ok(name) => match normalized_output_name(name) {
                None => Err(CompressRefusal::Unsupported("unsupported archive suffix for "@ + name)),
                Some(name) => match spec_detect_format(name) {
                    None => Err(CompressRefusal::Unsupported("unsupported archive suffix for "@ + name)),
                    Some(format) => if jobs > 1 && format.kind != FormatKind::Zip {
                        Err(CompressRefusal::Unsupported("compression --jobs > 1 is only supported for .zip"@))
                    } else if format.kind is SingleStream && any_input_is_dir {
                        if !auto_tar {
                            Err(
                                CompressRefusal::Unsupported(
                                    format.suffix@ + " is a single-file format; use a tar-based suffix or --auto-tar"@,
                                ),
                            )
                        } else {
                            accepted_format(
                                name.take(name.len() - format.suffix@.len()) + auto_tar_replacement(format.kind)->0@,
                                jobs,
                                level,
                                encryption,
                            )
                        }
                    } else {
                        accepted_format(name, jobs, level, encryption)
                    },
                },
            },
        }
    }
}

fn check_format_options(format: ArchiveFormat, jobs: usize, level: Option<u8>, encryption: &Encryption) -> (r: Result<
    (),
    ArcaError,
>)
    ensures
        r is Ok <==> format_accepts(format, jobs, level, *encryption),
        r matches Err(e) ==> e is Unsupported && error_detail(e) == format_refusal_text(format, level, *encryption),
{
    if format.kind == FormatKind::Tar && level.is_some() {
        return Err(ArcaError::Unsupported("--level is not supported for .tar".to_owned()));
    }
    let unencrypted = match encryption {
        Encryption::Unencrypted => true,
        _ => false,
    };
    if format.kind != FormatKind::Zip && !unencrypted {
        return Err(ArcaError::Unsupported("password options are only supported for .zip".to_owned()));
    }
    let zipcrypto = match encryption {
        Encryption::ZipCrypto(_) => true,
        _ => false,
    };
    if jobs > 1 && zipcrypto {
        return Err(ArcaError::Unsupported("compression --jobs > 1 is not supported with ZipCrypto".to_owned()));
    }
    Ok(())
}

/// Settles what a compression writes before any input is read: the worker
/// count must be positive; the output name is the one given or derived from
/// the inputs, with `.zip` added where it has no extension (any other unknown
/// suffix is refused); several jobs are only for ZIP; a directory written to a
/// single-file format needs `--auto-tar`, which widens the suffix to its tar
/// form; plain tar takes no level; passwords are only for ZIP; ZipCrypto is
/// never parallel. `any_input_is_dir` tells whether some input is a directory.
pub fn compress_target(
    output_name: Option<String>,
    input_names: &Vec<Option<String>>,
    jobs: usize,
    any_input_is_dir: bool,
    auto_tar: bool,
    level: Option<u8>,
    encryption: &Encryption,
) -> (r: Result<CompressTarget, ArcaError>)
    ensures
        match spec_compress_target(output_name, input_names@, jobs, any_input_is_dir, auto_tar, level, *encryption) {
            Ok((name, format)) => r matches Ok(t) && t.output_name@ == name && t.format == format,
            Err(CompressRefusal::Usage(m)) => r matches Err(e) && e is Usage && error_detail(e) == m,
            Err(CompressRefusal::NonUtf8(m)) => r matches Err(e) && e is NonUtf8Path && error_detail(e) == m,
            Err(CompressRefusal::Unsupported(m)) => r matches Err(e) && e is Unsupported && error_detail(e) == m,
        },
{
    validate_jobs(jobs)?;
    let name = match output_name {
        Some(n) => n,
        None => default_compress_output(input_names)?,
    };
    let name = normalize_output_file_name(name.as_str())?;
    let format = required_format(name.as_str())?;
    if jobs > 1 && format.kind != FormatKind::Zip {
        return Err(ArcaError::Unsupported("compression --jobs > 1 is only supported for .zip".to_owned()));
    }
    if format.is_single_stream() && any_input_is_dir {
        if !auto_tar {
            return Err(
                ArcaError::Unsupported(
                    concat_str(format.suffix, " is a single-file format; use a tar-based suffix or --auto-tar"),
                ),
            );
        }
        proof {
            lemma_longest_suffix_wins(name@);
        }
        let widened = auto_tar_output(name.as_str(), format);
        let widened_format = required_format(widened.as_str())?;
        check_format_options(widened_format, jobs, level, encryption)?;
        return Ok(CompressTarget { output_name: widened, format: widened_format });
    }
    check_format_options(format, jobs, level, encryption)?;
    Ok(CompressTarget { output_name: name, format })
}

/// An existing output is only replaced with `overwrite` (`Usage` otherwise).
pub fn check_compress_output(output_exists: bool, overwrite: bool, output: &str) -> (r: Result<(), ArcaError>)
    ensures
        r is Ok <==> (!output_exists || overwrite),
        r matches Err(e) ==> e is Usage && error_detail(e) == "output already exists: "@ + output@,
{
    if output_exists && !overwrite {
        return Err(ArcaError::Usage(concat_str("output already exists: ", output)));
    }
    Ok(())
}

/// A single-file format compresses exactly one input (`Usage` otherwise).
pub fn check_single_stream_inputs(count: usize) -> (r: Result<(), ArcaError>)
    ensures
        r is Ok <==> count == 1,
        r matches Err(e) ==> e is Usage && error_detail(e)
            == "single-stream compression requires exactly one input file"@,
{
    if count != 1 {
        return Err(ArcaError::Usage("single-stream compression requires exactly one input file".to_owned()));
    }
    Ok(())
}

/// A single-file format compresses a regular file only (`Usage` otherwise).
pub fn check_single_stream_kind(kind: EntryKind) -> (r: Result<(), ArcaError>)
    ensures
        r is Ok <==> kind == EntryKind::File,
        r matches Err(e) ==> e is Usage && error_detail(e) == "single-stream compression requires a regular file"@,
{
    if kind != EntryKind::File {
        return Err(ArcaError::Usage("single-stream compression requires a regular file".to_owned()));
    }
    Ok(())
}

} // verus!
