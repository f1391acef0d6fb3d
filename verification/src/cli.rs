use vstd::prelude::*;
use vstd::string::StrSliceExecFns;
use zeroize::Zeroize;

use crate::error::{spec_exit_code, spec_exit_status, ArcaError, ExitCode};
use crate::format::{ArchiveFormat, FormatKind};
use crate::limits::{parse_u64, spec_parse_u64};
use crate::manifest::ListEntry;
use crate::options::{Encryption, Password};
use crate::text::{concat_str, decimal_string, decimal_text, push_char};

verus! {

broadcast use vstd::string::group_string_axioms;

// ---------------------------------------------------------------------------
// Passwords and encryption flags
// ---------------------------------------------------------------------------

/// Where a password comes from.
#[derive(Debug, Clone, Copy, PartialEq, Eq, Structural)]
pub enum PasswordSource {
    NotRequested,
    Prompt,
    Stdin,
}

/// The password source the flags ask for; `Usage` when both are given.
pub fn password_source(password: bool, stdin: bool) -> (r: Result<PasswordSource, ArcaError>)
    ensures
        r is Err <==> password && stdin,
        r matches Err(e) ==> (e matches ArcaError::Usage(m) && m@
            == "--password and --password-stdin are mutually exclusive"@),
        r matches Ok(s) ==> (s == PasswordSource::Stdin <==> stdin) && (s == PasswordSource::Prompt <==> password)
            && (s == PasswordSource::NotRequested <==> !password && !stdin),
{
    if password && stdin {
        proof {
            reveal_strlit("--password and --password-stdin are mutually exclusive");
        }
        return Err(ArcaError::Usage("--password and --password-stdin are mutually exclusive".to_owned()));
    }
    if stdin {
        return Ok(PasswordSource::Stdin);
    }
    if password {
        return Ok(PasswordSource::Prompt);
    }
    Ok(PasswordSource::NotRequested)
}

/// Refuses password flags for an archive that is not a ZIP archive
/// (`Unsupported`).
pub fn validate_archive_password_flags(format: ArchiveFormat, password: bool, stdin: bool) -> (r: Result<(), ArcaError>)
    ensures
        r is Ok <==> format.kind == FormatKind::Zip || (!password && !stdin),
        r matches Err(e) ==> (e matches ArcaError::Unsupported(m) && m@
            == "password options are only supported for .zip"@),
{
    proof {
        reveal_strlit("password options are only supported for .zip");
    }
    match format.kind {
        FormatKind::Zip => Ok(()),
        _ => if password || stdin {
            Err(ArcaError::Unsupported("password options are only supported for .zip".to_owned()))
        } else {
            Ok(())
        },
    }
}

/// Checks the encryption flags of a compression into the given format:
/// password flags only for ZIP archives (`Unsupported`), and `--zipcrypto`
/// only with a password flag (`Usage`).
pub fn validate_compress_encryption_flags(
    format: ArchiveFormat,
    password: bool,
    stdin: bool,
    zipcrypto: bool,
) -> (r: Result<(), ArcaError>)
    ensures
        format.kind != FormatKind::Zip && (password || stdin || zipcrypto) ==> (r matches Err(e) && (e
            matches ArcaError::Unsupported(m) && m@ == "password options are only supported for .zip"@)),
        (format.kind == FormatKind::Zip || !(password || stdin || zipcrypto)) ==> (r is Ok <==> !(zipcrypto
            && !password && !stdin)),
        format.kind == FormatKind::Zip && zipcrypto && !password && !stdin ==> (r matches Err(e) && (e
            matches ArcaError::Usage(m) && m@ == "--zipcrypto requires --password or --password-stdin"@)),
        r matches Err(e) ==> (e matches ArcaError::Unsupported(m) && m@
            == "password options are only supported for .zip"@) || (e matches ArcaError::Usage(m) && m@
            == "--zipcrypto requires --password or --password-stdin"@),
{
    proof {
        reveal_strlit("password options are only supported for .zip");
        reveal_strlit("--zipcrypto requires --password or --password-stdin");
    }
    let zip = match format.kind {
        FormatKind::Zip => true,
        _ => false,
    };
    if !zip && (password || stdin || zipcrypto) {
        return Err(ArcaError::Unsupported("password options are only supported for .zip".to_owned()));
    }
    if zipcrypto && !password && !stdin {
        return Err(ArcaError::Usage("--zipcrypto requires --password or --password-stdin".to_owned()));
    }
    Ok(())
}

/// The encryption of a new archive: none without a password, legacy
/// ZipCrypto when asked for, AES-256 otherwise. `--zipcrypto` without a
/// password is `Usage`.
pub fn encryption_for(password: Option<Password>, zipcrypto: bool) -> (r: Result<Encryption, ArcaError>)
    ensures
        r is Err <==> password is None && zipcrypto,
        r matches Err(e) ==> (e matches ArcaError::Usage(m) && m@
            == "--zipcrypto requires --password or --password-stdin"@),
        r matches Ok(Encryption::Unencrypted) ==> password is None,
        r matches Ok(Encryption::ZipCrypto(p)) ==> zipcrypto && password == Some(p),
        r matches Ok(Encryption::Aes256(p)) ==> !zipcrypto && password == Some(p),
        password is Some ==> r is Ok && !(r matches Ok(Encryption::Unencrypted)),
{
    proof {
        reveal_strlit("--zipcrypto requires --password or --password-stdin");
    }
    match password {
        None => if zipcrypto {
            Err(ArcaError::Usage("--zipcrypto requires --password or --password-stdin".to_owned()))
        } else {
            Ok(Encryption::Unencrypted)
        },
        Some(p) => if zipcrypto {
            Ok(Encryption::ZipCrypto(p))
        } else {
            Ok(Encryption::Aes256(p))
        },
    }
}

/// The bytes of the first stdin line without its line ending.
pub open spec fn spec_password_line(input: Seq<u8>) -> Seq<u8> {
    if input.len() > 0 && input.last() == 10 {
        let rest = input.drop_last();
        if rest.len() > 0 && rest.last() == 13 {
            rest.drop_last()
        } else {
            rest
        }
    } else {
        input
    }
}

/// The password read from a line of stdin: the line without a trailing
/// `\n` and, before it, `\r`.
pub fn password_from_line(input: Vec<u8>) -> (r: Password)
    ensures
        r.bytes_view() == spec_password_line(input@),
{
    let mut bytes = input;
    let n = bytes.len();
    if n > 0 && bytes[n - 1] == 10 {
        bytes.pop();
        let m = bytes.len();
        if m > 0 && bytes[m - 1] == 13 {
            bytes.pop();
        }
    }
    Password::new(bytes)
}

/// `Zeroize::zeroize` of the zeroize crate on a string: overwrites its bytes
/// with zeros and leaves it empty.
#[verifier::external_body]
fn wipe_text(text: &mut String)
    ensures
        final(text)@.len() == 0,
{
    text.zeroize();
}

/// The password typed twice at a prompt: the first when both match
/// (`Password` otherwise); the copies not kept are wiped.
pub fn confirmed_password(first: String, second: String) -> (r: Result<Password, ArcaError>)
    ensures
        r is Ok <==> first@ == second@,
        r matches Ok(p) ==> p.bytes_view() == vstd::utf8::encode_utf8(first@),
        r matches Err(e) ==> (e matches ArcaError::Password(m) && m@ == "password confirmation did not match"@),
{
    proof {
        reveal_strlit("password confirmation did not match");
    }
    let mut first = first;
    let mut second = second;
    let matches = first == second;
    wipe_text(&mut second);
    if !matches {
        wipe_text(&mut first);
        return Err(ArcaError::Password("password confirmation did not match".to_owned()));
    }
    Ok(prompted_password(first))
}

/// The password typed once at a prompt, as its UTF-8 bytes; the text is
/// wiped.
pub fn prompted_password(text: String) -> (r: Password)
    ensures
        r.bytes_view() == vstd::utf8::encode_utf8(text@),
{
    let mut text = text;
    let bytes = text.as_str().as_bytes_vec();
    wipe_text(&mut text);
    Password::new(bytes)
}

// ---------------------------------------------------------------------------
// Command-line values and output
// ---------------------------------------------------------------------------

/// Parses a worker count: a `usize` as `str::parse` reads it, at least one.
pub fn parse_jobs(value: &str) -> (r: Result<usize, String>)
    ensures
        r is Ok <==> (spec_parse_u64(value@) matches Some(n) && 1 <= n <= usize::MAX),
        r matches Ok(n) ==> spec_parse_u64(value@) == Some(n as u64),
        r matches Err(m) ==> (m@ == "jobs must be at least 1"@ <==> spec_parse_u64(value@) == Some(0u64)),
{
    proof {
        reveal_strlit("jobs must be a positive integer");
        reveal_strlit("jobs must be at least 1");
        assert("jobs must be a positive integer"@.len() != "jobs must be at least 1"@.len());
    }
    match parse_u64(value) {
        None => Err("jobs must be a positive integer".to_owned()),
        Some(n) => {
            if n > usize::MAX as u64 {
                return Err("jobs must be a positive integer".to_owned());
            }
            if n == 0 {
                return Err("jobs must be at least 1".to_owned());
            }
            Ok(n as usize)
        },
    }
}

/// `text` right-aligned in a field of `width` characters.
pub open spec fn spec_pad_left(text: Seq<char>, width: nat) -> Seq<char> {
    if text.len() < width {
        Seq::new((width - text.len()) as nat, |i: int| ' ') + text
    } else {
        text
    }
}

/// `text` left-aligned in a field of `width` characters.
pub open spec fn spec_pad_right(text: Seq<char>, width: nat) -> Seq<char> {
    if text.len() < width {
        text + Seq::new((width - text.len()) as nat, |i: int| ' ')
    } else {
        text
    }
}

/// Right-aligns a text in a field, as `{:>width}` does.
pub fn pad_left(text: &str, width: usize) -> (r: String)
    ensures
        r@ == spec_pad_left(text@, width as nat),
{
    let n = text.unicode_len();
    let mut out = String::new();
    if n < width {
        let mut i: usize = 0;
        while i < width - n
            invariant
                n == text@.len(),
                n < width,
                i <= width - n,
                out@ == Seq::new(i as nat, |k: int| ' '),
            decreases width - n - i,
        {
            push_char(&mut out, ' ');
            i = i + 1;
        }
    }
    out.append(text);
    proof {
        if n >= width {
            assert(out@ =~= text@);
        }
    }
    out
}

/// Left-aligns a text in a field, as `{:<width}` does.
pub fn pad_right(text: &str, width: usize) -> (r: String)
    ensures
        r@ == spec_pad_right(text@, width as nat),
{
    let n = text.unicode_len();
    let mut out = text.to_owned();
    if n < width {
        let mut i: usize = 0;
        while i < width - n
            invariant
                n == text@.len(),
                n < width,
                i <= width - n,
                out@ == text@ + Seq::new(i as nat, |k: int| ' '),
            decreases width - n - i,
        {
            push_char(&mut out, ' ');
            i = i + 1;
        }
    }
    out
}

/// The header line of the archive listing.
pub fn list_header() -> (r: String)
    ensures
        r@ == spec_pad_left("size"@, 12) + "  "@ + spec_pad_left("packed"@, 8) + "  "@ + spec_pad_right("type"@, 10)
            + "  path"@,
{
    let a = pad_left("size", 12);
    let a = concat_str(a.as_str(), "  ");
    let b = pad_left("packed", 8);
    let a = concat_str(a.as_str(), b.as_str());
    let a = concat_str(a.as_str(), "  ");
    let c = pad_right("type", 10);
    let a = concat_str(a.as_str(), c.as_str());
    concat_str(a.as_str(), "  path")
}

/// The packed size column of a listing entry: the size, or `-` without one.
pub open spec fn packed_text(entry: ListEntry) -> Seq<char> {
    match entry.compressed_size {
        Some(size) => decimal_text(size as nat),
        None => "-"@,
    }
}

/// The packed column of a listing line shows the entry's packed size in
/// decimal, or `-` when the entry has none; entries with the same packed
/// size show the same column whatever their unpacked sizes, types and paths.
pub proof fn law_packed_column(entry: ListEntry, other: ListEntry)
    requires
        other.compressed_size == entry.compressed_size,
    ensures
        entry.compressed_size matches Some(c) ==> packed_text(entry) == decimal_text(c as nat),
        entry.compressed_size is None ==> packed_text(entry) == "-"@,
        packed_text(other) == packed_text(entry),
{
}

/// One line of the archive listing: unpacked size, packed size, entry type
/// and path, in aligned columns.
pub fn list_line(entry: &ListEntry) -> (r: String)
    ensures
        r@ == spec_pad_left(decimal_text(entry.uncompressed_size as nat), 12) + "  "@ + spec_pad_left(
            packed_text(*entry),
            8,
        ) + "  "@ + spec_pad_right(entry.entry_type@, 10) + "  "@ + entry.path@,
        r@ == spec_pad_left(decimal_text(entry.uncompressed_size as nat), 12) + "  "@ + spec_pad_left(
            match entry.compressed_size {
                Some(c) => decimal_text(c as nat),
                None => "-"@,
            },
            8,
        ) + "  "@ + spec_pad_right(entry.entry_type@, 10) + "  "@ + entry.path@,
{
    let size = decimal_string(entry.uncompressed_size);
    let packed = match entry.compressed_size {
        Some(s) => decimal_string(s),
        None => "-".to_owned(),
    };
    let a = pad_left(size.as_str(), 12);
    let a = concat_str(a.as_str(), "  ");
    let b = pad_left(packed.as_str(), 8);
    let a = concat_str(a.as_str(), b.as_str());
    let a = concat_str(a.as_str(), "  ");
    let c = pad_right(entry.entry_type.as_str(), 10);
    let a = concat_str(a.as_str(), c.as_str());
    let a = concat_str(a.as_str(), "  ");
    concat_str(a.as_str(), entry.path.as_str())
}

/// The process exit status for a failed command: the status of the error's
/// class when it is an Arca error, the general status otherwise.
pub fn failure_status(error: Option<&ArcaError>) -> (r: u8)
    ensures
        match error {
            Some(e) => r == spec_exit_status(spec_exit_code(*e)),
            None => r == spec_exit_status(ExitCode::General),
        },
{
    match error {
        Some(e) => ExitCode::from_error(e).status(),
        None => ExitCode::General.status(),
    }
}

} // verus!
