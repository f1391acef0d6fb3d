use vstd::prelude::*;

use crate::text::concat_str;

verus! {

/// Failure of an operation on the zip container, as far as the exit status
/// needs to tell failures apart.
#[derive(Debug, Clone, PartialEq, Eq)]
pub enum ZipFailure {
    InvalidPassword,
    PasswordRequired,
    Other(String),
}

/// Every error an Arca operation reports.
#[derive(Debug, Clone)]
pub enum ArcaError {
    Usage(String),
    Unsupported(String),
    Security(String),
    Password(String),
    Integrity(String),
    Busy(String),
    Canceled(String),
    NonUtf8Path(String),
    Io { path: String, message: String },
    IoPlain(String),
    Zip(ZipFailure),
    Glob(String),
    Other(String),
}

pub type ArcaResult<T> = Result<T, ArcaError>;

/// Process exit status classes.
#[derive(Debug, Clone, Copy, PartialEq, Eq, Structural)]
pub enum ExitCode {
    Success,
    General,
    Usage,
    Unsupported,
    Security,
    Password,
    Integrity,
    Interrupted,
}

/// The numeric status of each exit class.
pub open spec fn spec_exit_status(code: ExitCode) -> u8 {
    match code {
        ExitCode::Success => 0,
        ExitCode::General => 1,
        ExitCode::Usage => 2,
        ExitCode::Unsupported => 3,
        ExitCode::Security => 4,
        ExitCode::Password => 5,
        ExitCode::Integrity => 6,
        ExitCode::Interrupted => 130,
    }
}

/// The exit class that each error maps to.
pub open spec fn spec_exit_code(error: ArcaError) -> ExitCode {
    match error {
        ArcaError::Usage(_) => ExitCode::Usage,
        ArcaError::Unsupported(_) => ExitCode::Unsupported,
        ArcaError::Security(_) | ArcaError::NonUtf8Path(_) => ExitCode::Security,
        ArcaError::Password(_) => ExitCode::Password,
        ArcaError::Integrity(_) => ExitCode::Integrity,
        ArcaError::Busy(_) | ArcaError::Canceled(_) => ExitCode::Interrupted,
        ArcaError::Zip(ZipFailure::InvalidPassword) => ExitCode::Password,
        ArcaError::Zip(ZipFailure::PasswordRequired) => ExitCode::Password,
        ArcaError::Zip(ZipFailure::Other(_)) => ExitCode::Integrity,
        ArcaError::Io { .. } | ArcaError::IoPlain(_) | ArcaError::Glob(_) | ArcaError::Other(_) => {
            ExitCode::General
        },
    }
}

impl ExitCode {
    /// The numeric process status of this class.
    pub fn status(self) -> (r: u8)
        ensures
            r == spec_exit_status(self),
    {
        match self {
            ExitCode::Success => 0,
            ExitCode::General => 1,
            ExitCode::Usage => 2,
            ExitCode::Unsupported => 3,
            ExitCode::Security => 4,
            ExitCode::Password => 5,
            ExitCode::Integrity => 6,
            ExitCode::Interrupted => 130,
        }
    }

    /// The exit class of an error.
    pub fn from_error(error: &ArcaError) -> (r: ExitCode)
        ensures
            r == spec_exit_code(*error),
    {
        match error {
            ArcaError::Usage(_) => ExitCode::Usage,
            ArcaError::Unsupported(_) => ExitCode::Unsupported,
            ArcaError::Security(_) => ExitCode::Security,
            ArcaError::NonUtf8Path(_) => ExitCode::Security,
            ArcaError::Password(_) => ExitCode::Password,
            ArcaError::Integrity(_) => ExitCode::Integrity,
            ArcaError::Busy(_) => ExitCode::Interrupted,
            ArcaError::Canceled(_) => ExitCode::Interrupted,
            ArcaError::Zip(failure) => match failure {
                ZipFailure::InvalidPassword => ExitCode::Password,
                ZipFailure::PasswordRequired => ExitCode::Password,
                ZipFailure::Other(_) => ExitCode::Integrity,
            },
            ArcaError::Io { .. } => ExitCode::General,
            ArcaError::IoPlain(_) => ExitCode::General,
            ArcaError::Glob(_) => ExitCode::General,
            ArcaError::Other(_) => ExitCode::General,
        }
    }
}

/// The detail an error carries after its class: its message, the path of a
/// non-UTF-8 path, or the text of a zip failure; for an I/O error at a path,
/// its message.
pub open spec fn error_detail(error: ArcaError) -> Seq<char> {
    match error {
        ArcaError::Usage(m) | ArcaError::Unsupported(m) | ArcaError::Security(m) | ArcaError::Password(m)
        | ArcaError::Integrity(m) | ArcaError::Busy(m) | ArcaError::Canceled(m) | ArcaError::NonUtf8Path(m)
        | ArcaError::IoPlain(m) | ArcaError::Glob(m) | ArcaError::Other(m) => m@,
        ArcaError::Io { message, .. } => message@,
        ArcaError::Zip(failure) => zip_failure_text(failure),
    }
}

/// The text a zip failure is reported with.
pub open spec fn zip_failure_text(failure: ZipFailure) -> Seq<char> {
    match failure {
        ZipFailure::InvalidPassword => "provided password is incorrect"@,
        ZipFailure::PasswordRequired => "unsupported Zip archive: Password required to decrypt file"@,
        ZipFailure::Other(text) => text@,
    }
}

/// The text an error is reported with: a prefix naming its class, then its
/// detail.
pub open spec fn error_text(error: ArcaError) -> Seq<char> {
    match error {
        ArcaError::Usage(m) => "usage error: "@ + m@,
        ArcaError::Unsupported(m) => "unsupported format or feature: "@ + m@,
        ArcaError::Security(m) => "security policy violation: "@ + m@,
        ArcaError::Password(m) => "password or encryption error: "@ + m@,
        ArcaError::Integrity(m) => "corrupt archive or integrity failure: "@ + m@,
        ArcaError::Busy(m) => "operation already in progress: "@ + m@,
        ArcaError::Canceled(m) => "operation canceled: "@ + m@,
        ArcaError::NonUtf8Path(p) => "path is not valid UTF-8: "@ + p@,
        ArcaError::Io { path, message } => "I/O error at "@ + path@ + ": "@ + message@,
        ArcaError::IoPlain(m) => "I/O error: "@ + m@,
        ArcaError::Zip(failure) => "zip error: "@ + zip_failure_text(failure),
        ArcaError::Glob(m) => "glob error: "@ + m@,
        ArcaError::Other(m) => m@,
    }
}

impl ArcaError {
    /// The text this error is reported with.
    pub fn message(&self) -> (r: String)
        ensures
            r@ == error_text(*self),
    {
        match self {
            ArcaError::Usage(m) => concat_str("usage error: ", m.as_str()),
            ArcaError::Unsupported(m) => concat_str("unsupported format or feature: ", m.as_str()),
            ArcaError::Security(m) => concat_str("security policy violation: ", m.as_str()),
            ArcaError::Password(m) => concat_str("password or encryption error: ", m.as_str()),
            ArcaError::Integrity(m) => concat_str("corrupt archive or integrity failure: ", m.as_str()),
            ArcaError::Busy(m) => concat_str("operation already in progress: ", m.as_str()),
            ArcaError::Canceled(m) => concat_str("operation canceled: ", m.as_str()),
            ArcaError::NonUtf8Path(p) => concat_str("path is not valid UTF-8: ", p.as_str()),
            ArcaError::Io { path, message } => {
                let head = concat_str("I/O error at ", path.as_str());
                let head = concat_str(head.as_str(), ": ");
                concat_str(head.as_str(), message.as_str())
            },
            ArcaError::IoPlain(m) => concat_str("I/O error: ", m.as_str()),
            ArcaError::Zip(failure) => match failure {
                ZipFailure::InvalidPassword => concat_str("zip error: ", "provided password is incorrect"),
                ZipFailure::PasswordRequired => concat_str(
                    "zip error: ",
                    "unsupported Zip archive: Password required to decrypt file",
                ),
                ZipFailure::Other(text) => concat_str("zip error: ", text.as_str()),
            },
            ArcaError::Glob(m) => concat_str("glob error: ", m.as_str()),
            ArcaError::Other(m) => m.clone(),
        }
    }
}

} // verus!

