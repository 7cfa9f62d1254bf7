//! What can go wrong while a tree is materialised or removed.

use vstd::prelude::*;
use vstd::string::StringExecFns;
use crate::path::EntryPath;

verus! {

/// Why a filesystem operation failed, as far as the run depends on it.
#[derive(Clone, Copy, Debug, PartialEq, Eq)]
pub enum FailureKind {
    /// The entry to operate on does not exist.
    NotFound,
    /// Any other failure.
    Other,
}

/// The failure of one filesystem operation.
#[derive(Debug, PartialEq, Eq)]
pub struct IoFailure {
    pub kind: FailureKind,
    /// The underlying error, in words.
    pub message: String,
}

/// The mathematical value of an [`IoFailure`].
pub struct IoFailureView {
    pub kind: FailureKind,
    pub message: Seq<char>,
}

impl View for IoFailure {
    type V = IoFailureView;

    open spec fn view(&self) -> IoFailureView {
        IoFailureView { kind: self.kind, message: self.message@ }
    }
}

/// An error that ends a run.
#[derive(Debug, PartialEq, Eq)]
pub enum Error {
    /// The node at this path is neither a file nor a directory.
    WrongValueType(EntryPath),
    /// The mapping at this path has a key that is not a string.
    InvalidKey(EntryPath),
    /// A filesystem operation failed.
    Io(IoFailure),
}

/// The mathematical value of an [`Error`].
pub enum ErrorView {
    WrongValueType(Seq<Seq<char>>),
    InvalidKey(Seq<Seq<char>>),
    Io(IoFailureView),
}

impl View for Error {
    type V = ErrorView;

    open spec fn view(&self) -> ErrorView {
        match self {
            Error::WrongValueType(path) => ErrorView::WrongValueType(path@),
            Error::InvalidKey(path) => ErrorView::InvalidKey(path@),
            Error::Io(failure) => ErrorView::Io(failure@),
        }
    }
}

/// The outcome of one filesystem operation, as a value.
pub open spec fn outcome_view(outcome: Result<(), IoFailure>) -> Result<(), IoFailureView> {
    match outcome {
        Ok(_) => Ok(()),
        Err(failure) => Err(failure@),
    }
}

/// An outcome with the absence of the entry counted as success.
pub open spec fn not_found_filtered(outcome: Result<(), IoFailureView>) -> Result<
    (),
    IoFailureView,
> {
    match outcome {
        Err(failure) if failure.kind is NotFound => Ok(()),
        _ => outcome,
    }
}

/// What the user is told of a node that is neither a file nor a directory;
/// `located` is where on the disk the node would be.
pub fn wrong_value_message(located: &str) -> (message: String)
    ensures
        message@ == "Invalid value for path "@ + located@,
{
    String::from_str("Invalid value for path ").concat(located)
}

/// What the user is told of a mapping with a key that is not a string;
/// `located` is where on the disk the mapping is.
pub fn invalid_key_message(located: &str) -> (message: String)
    ensures
        message@ == "Invalid path: a key under "@ + located@ + " is not a string"@,
{
    String::from_str("Invalid path: a key under ").concat(located).concat(" is not a string")
}

/// The error for a node at `path` that is neither a file nor a directory.
pub fn path_error(path: EntryPath) -> (result: Result<(), Error>)
    ensures
        result matches Err(error) && error@ == ErrorView::WrongValueType(path@),
{
    Err(Error::WrongValueType(path))
}

/// Turns the failure to find an entry into success, and keeps every other
/// outcome as it is.
pub fn filter_not_found_error(res: Result<(), IoFailure>) -> (filtered: Result<(), IoFailure>)
    ensures
        outcome_view(filtered) == not_found_filtered(outcome_view(res)),
        filtered is Err ==> filtered == res,
{
    if let Err(err) = &res {
        if let FailureKind::NotFound = err.kind {
            return Ok(());
        }
    }
    res
}

} // verus!
