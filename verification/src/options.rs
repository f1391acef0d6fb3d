use vstd::prelude::*;
use std::fmt;
use std::path::PathBuf;
use zeroize::Zeroize;

use crate::direct_edit::DirectEditPendingEntry;

verus! {

#[verifier::external_type_specification]
#[verifier::external_body]
pub struct ExFormatter<'a>(fmt::Formatter<'a>);

#[verifier::external_type_specification]
#[verifier::external_body]
pub struct ExFmtError(fmt::Error);

/// A password, kept as raw bytes.
pub struct Password {
    bytes: Vec<u8>,
}

impl Clone for Password {
    /// A password with the same bytes.
    fn clone(&self) -> (r: Self)
        ensures
            r.bytes_view() == self.bytes_view(),
    {
        let bytes = self.bytes.clone();
        assert(bytes@ =~= self.bytes@);
        Password { bytes }
    }
}

impl Password {
    /// The bytes of this password.
    pub closed spec fn bytes_view(&self) -> Seq<u8> {
        self.bytes@
    }

    /// A password with these bytes.
    pub fn new(bytes: Vec<u8>) -> (r: Password)
        ensures
            r.bytes_view() == bytes@,
    {
        Password { bytes }
    }

    /// The bytes of this password.
    pub fn as_bytes(&self) -> (r: &[u8])
        ensures
            r@ == self.bytes_view(),
    {
        self.bytes.as_slice()
    }
}

/// `Zeroize::zeroize` from the zeroize crate on a byte vector: overwrites the
/// bytes with zeros and leaves the vector empty.
#[verifier::external_body]
fn wipe_bytes(bytes: &mut Vec<u8>)
    ensures
        final(bytes)@.len() == 0,
    opens_invariants none
    no_unwind
{
    bytes.zeroize();
}

impl Drop for Password {
    /// Wipes the bytes before the memory is freed.
    fn drop(&mut self)
        opens_invariants none
        no_unwind
    {
        wipe_bytes(&mut self.bytes);
    }
}

impl fmt::Debug for Password {
    /// Shows no byte of the password.
    #[verifier::external_body]
    fn fmt(&self, formatter: &mut fmt::Formatter<'_>) -> fmt::Result {
        formatter.write_str("Password(<redacted>)")
    }
}

/// How a new ZIP archive encrypts its entries.
#[derive(Debug, Clone, Default)]
pub enum Encryption {
    #[default]
    Unencrypted,
    Aes256(Password),
    ZipCrypto(Password),
}

/// What to pack into a new archive and how.
#[derive(Debug, Clone)]
pub struct CompressOptions {
    pub inputs: Vec<PathBuf>,
    pub output: Option<PathBuf>,
    pub overwrite: bool,
    pub level: Option<u8>,
    pub jobs: usize,
    pub excludes: Vec<String>,
    pub encryption: Encryption,
    pub auto_tar: bool,
}

/// What archive to unpack, and where.
#[derive(Debug, Clone)]
pub struct ExtractOptions {
    pub archive: PathBuf,
    pub output: Option<PathBuf>,
    pub overwrite: bool,
    pub jobs: usize,
    pub password: Option<Password>,
}

/// Which entries of an archive to unpack, and where.
#[derive(Debug, Clone)]
pub struct ExtractSelectionOptions {
    pub archive: PathBuf,
    pub output: Option<PathBuf>,
    pub overwrite: bool,
    pub jobs: usize,
    pub password: Option<Password>,
    pub entries: Vec<String>,
}

/// What archive to test.
#[derive(Debug, Clone)]
pub struct TestOptions {
    pub archive: PathBuf,
    pub jobs: usize,
    pub password: Option<Password>,
}

/// Which entries of an archive to test.
#[derive(Debug, Clone)]
pub struct TestSelectionOptions {
    pub archive: PathBuf,
    pub jobs: usize,
    pub password: Option<Password>,
    pub entries: Vec<String>,
}

/// Which entries to delete from an archive, given the digest it had when they
/// were chosen.
#[derive(Debug, Clone)]
pub struct DeleteSelectionOptions {
    pub archive: PathBuf,
    pub expected_digest_sha256: String,
    pub entries: Vec<String>,
}

/// What the editor asks to add to an archive, with its unsaved changes.
#[derive(Debug, Clone)]
pub struct PlanDirectEditAddOptions {
    pub archive: PathBuf,
    pub inputs: Vec<PathBuf>,
    pub pending_delete_entries: Vec<String>,
    pub pending_add_entries: Vec<DirectEditPendingEntry>,
}

/// The changes the editor saves to an archive, given the digest it had when
/// they were made.
#[derive(Debug, Clone)]
pub struct DirectEditSaveOptions {
    pub archive: PathBuf,
    pub expected_digest_sha256: String,
    pub delete_entries: Vec<String>,
    pub add_inputs: Vec<PathBuf>,
    pub add_entries: Vec<String>,
    pub replace_entries: Vec<String>,
}

} // verus!
