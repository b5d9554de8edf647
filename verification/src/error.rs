//! The error taxonomy of the library.

use vstd::prelude::*;

verus! {

/// Why an operation failed. Every failure is reported to the immediate
/// caller as one of these values; nothing is retried or logged internally.
pub enum ErrorKind {
    /// Neither home-directory environment signal is present and non-empty.
    EnvironmentUnavailable,
    /// The target path could not be opened for enumeration; the payload is
    /// the underlying reason's textual description.
    DirectoryOpenFailed(String),
    /// The metadata of one entry could not be read after enumeration began;
    /// the payload is the underlying reason's textual description. The whole
    /// call is aborted and no partial listing is returned.
    EntryReadFailed(String),
}

/// The mathematical value of an [`ErrorKind`], with the description as a
/// character sequence.
pub enum ErrorModel {
    /// Model of [`ErrorKind::EnvironmentUnavailable`].
    EnvironmentUnavailable,
    /// Model of [`ErrorKind::DirectoryOpenFailed`].
    DirectoryOpenFailed(Seq<char>),
    /// Model of [`ErrorKind::EntryReadFailed`].
    EntryReadFailed(Seq<char>),
}

impl View for ErrorKind {
    type V = ErrorModel;

    open spec fn view(&self) -> ErrorModel {
        match self {
            ErrorKind::EnvironmentUnavailable => ErrorModel::EnvironmentUnavailable,
            ErrorKind::DirectoryOpenFailed(m) => ErrorModel::DirectoryOpenFailed(m@),
            ErrorKind::EntryReadFailed(m) => ErrorModel::EntryReadFailed(m@),
        }
    }
}

impl ErrorKind {
    /// The human-readable description that is surfaced to the caller: a
    /// fixed sentence for a missing environment, the underlying reason's
    /// text otherwise.
    pub fn message(&self) -> (m: String)
        ensures
            self@ is EnvironmentUnavailable ==> m@ == "could not determine home directory"@,
            self@ is DirectoryOpenFailed ==> m@ == self@->DirectoryOpenFailed_0,
            self@ is EntryReadFailed ==> m@ == self@->EntryReadFailed_0,
    {
        match self {
            ErrorKind::EnvironmentUnavailable => "could not determine home directory".to_owned(),
            ErrorKind::DirectoryOpenFailed(m) => m.clone(),
            ErrorKind::EntryReadFailed(m) => m.clone(),
        }
    }
}

} // verus!
