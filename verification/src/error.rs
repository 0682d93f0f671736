//! Errors: a kind and a message.

use vstd::prelude::*;
use vstd::string::StringExecFns;

use crate::text::{decimal, push_decimal};

verus! {

/// The outside type `std::io::ErrorKind`, carried through and never looked into.
#[verifier::external_type_specification]
#[verifier::external_body]
pub struct ExErrorKind(std::io::ErrorKind);

/// What kind of failure an error reports.
#[derive(Clone, Copy, Debug, PartialEq, Eq)]
pub enum ErrorKind {
    /// Something that was looked for is not there.
    NotFound,
    /// Any other failure that is noticed while restoring.
    Other,
    /// A failure that the host reported, with the kind it gave.
    Host(std::io::ErrorKind),
}

/// An error: its kind and its message.
#[derive(Debug, PartialEq, Eq)]
pub struct Error {
    pub kind: ErrorKind,
    pub message: String,
}

/// What an [`Error`] says.
#[verifier::ext_equal]
pub struct ErrorView {
    pub kind: ErrorKind,
    pub message: Seq<char>,
}

impl View for Error {
    type V = ErrorView;

    open spec fn view(&self) -> ErrorView {
        ErrorView { kind: self.kind, message: self.message@ }
    }
}

/// An error of no particular kind.
pub open spec fn other_error_view(message: Seq<char>) -> ErrorView {
    ErrorView { kind: ErrorKind::Other, message }
}

/// An error of no particular kind.
pub fn other_error(message: String) -> (error: Error)
    ensures
        error@ == other_error_view(message@),
{
    Error { kind: ErrorKind::Other, message }
}

/// An error of no particular kind, whose message is `text` followed by `id`.
pub(crate) fn numbered_error(text: &str, id: u64) -> (error: Error)
    ensures
        error@ == other_error_view(text@ + decimal(id as nat)),
{
    let mut message = text.to_owned();
    push_decimal(&mut message, id);
    other_error(message)
}

/// The error of whoever uses an inode that could not be restored because of `error`.
pub open spec fn invalid_inode_error(error: ErrorView) -> ErrorView {
    ErrorView {
        kind: error.kind,
        message: "Inode is invalid because of an error during the preceding migration, which was: "@
            + error.message,
    }
}

/// The error of whoever uses an inode that could not be restored because of `error`.
pub fn invalid_inode(error: &Error) -> (result: Error)
    ensures
        result@ == invalid_inode_error(error@),
{
    let mut message =
        "Inode is invalid because of an error during the preceding migration, which was: ".to_owned();
    message.append(error.message.as_str());
    Error { kind: error.kind, message }
}

} // verus!
