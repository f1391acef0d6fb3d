use vstd::prelude::*;

use crate::options::Password;

verus! {

broadcast use vstd::string::group_string_axioms;

/// How far the desktop editor has validated an archive it lists.
#[derive(Debug, Clone, PartialEq, Eq)]
pub struct GuiArchiveValidation {
    pub metadata_validated: bool,
    pub payload_validated: bool,
    pub password_required: bool,
    pub fully_validated: bool,
    pub state: &'static str,
    pub reason: String,
}

/// The validation shown for a listed archive: its metadata is validated and
/// its payload is not; a password is asked for exactly when some entry is
/// encrypted.
pub fn archive_validation(encrypted_entry_count: usize) -> (r: GuiArchiveValidation)
    ensures
        r.metadata_validated,
        !r.payload_validated,
        !r.fully_validated,
        r.password_required == (encrypted_entry_count > 0),
        r.state@ == (if encrypted_entry_count > 0 {
            "metadataOnlyPasswordRequired"@
        } else {
            "metadataOnly"@
        }),
        r.reason@ == (if encrypted_entry_count > 0 {
            "Archive metadata is validated, but encrypted payloads require a password before Test or Extract can fully validate them."@
        } else {
            "Archive metadata is validated. Run Test to validate payload contents."@
        }),
{
    if encrypted_entry_count > 0 {
        return GuiArchiveValidation {
            metadata_validated: true,
            payload_validated: false,
            password_required: true,
            fully_validated: false,
            state: "metadataOnlyPasswordRequired",
            reason: "Archive metadata is validated, but encrypted payloads require a password before Test or Extract can fully validate them.".to_owned(),
        };
    }
    GuiArchiveValidation {
        metadata_validated: true,
        payload_validated: false,
        password_required: false,
        fully_validated: false,
        state: "metadataOnly",
        reason: "Archive metadata is validated. Run Test to validate payload contents.".to_owned(),
    }
}

/// The most worker threads the desktop editor uses.
pub const MAX_GUI_JOBS: usize = 4;

/// The editor's worker count: the parallelism the machine reports (one where
/// it reports none), at most `MAX_GUI_JOBS`.
pub fn default_jobs(available_parallelism: Option<usize>) -> (r: usize)
    ensures
        r == (match available_parallelism {
            Some(n) => if n < MAX_GUI_JOBS {
                n
            } else {
                MAX_GUI_JOBS
            },
            None => 1,
        }),
{
    let n: usize = match available_parallelism {
        Some(n) => n,
        None => 1,
    };
    if n < MAX_GUI_JOBS {
        n
    } else {
        MAX_GUI_JOBS
    }
}

/// A password typed into the editor, as the UTF-8 bytes of the text.
pub fn password_from_string(password: Option<String>) -> (r: Option<Password>)
    ensures
        match password {
            Some(text) => r matches Some(p) && p.bytes_view() == vstd::utf8::encode_utf8(text@),
            None => r is None,
        },
{
    match password {
        Some(text) => {
            let bytes = text.as_str().as_bytes();
            let mut out: Vec<u8> = Vec::new();
            let mut i: usize = 0;
            while i < bytes.len()
                invariant
                    i <= bytes@.len(),
                    out@ == bytes@.take(i as int),
                decreases bytes.len() - i,
            {
                out.push(bytes[i]);
                assert(bytes@.take(i + 1) == bytes@.take(i as int).push(bytes@[i as int]));
                i = i + 1;
            }
            assert(bytes@.take(bytes@.len() as int) == bytes@);
            Some(Password::new(out))
        },
        None => None,
    }
}

} // verus!
