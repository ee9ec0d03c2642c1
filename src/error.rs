//! Errors of the engine and the requests it hands to its environment.
use vstd::prelude::*;

verus! {

/// Declared so that a decoding failure can travel inside [`ShellError`].
#[verifier::external_type_specification]
#[verifier::external_body]
pub struct ExUtf8Error(core::str::Utf8Error);

/// Declared so that a formatting failure can travel inside [`ShellError`].
#[verifier::external_type_specification]
#[verifier::external_body]
pub struct ExFmtError(core::fmt::Error);

/// A hard failure while processing a byte. Refused edits are not errors:
/// they ring the bell and succeed.
pub enum ShellError {
    ReadError,
    WriteError,
    HistoryError,
    FormatError(core::fmt::Error),
    ExecuteError(i32),
    BadInputError(core::str::Utf8Error),
}

pub type ShellResult = Result<(), ShellError>;

impl From<i32> for ShellError {
    fn from(err: i32) -> (r: ShellError)
        ensures
            r == ShellError::ExecuteError(err),
    {
        ShellError::ExecuteError(err)
    }
}

impl vstd::std_specs::convert::FromSpecImpl<i32> for ShellError {
    open spec fn obeys_from_spec() -> bool {
        true
    }

    open spec fn from_spec(err: i32) -> ShellError {
        ShellError::ExecuteError(err)
    }
}

impl From<core::str::Utf8Error> for ShellError {
    fn from(err: core::str::Utf8Error) -> (r: ShellError)
        ensures
            r == ShellError::BadInputError(err),
    {
        ShellError::BadInputError(err)
    }
}

impl vstd::std_specs::convert::FromSpecImpl<core::str::Utf8Error> for ShellError {
    open spec fn obeys_from_spec() -> bool {
        true
    }

    open spec fn from_spec(err: core::str::Utf8Error) -> ShellError {
        ShellError::BadInputError(err)
    }
}

impl From<core::fmt::Error> for ShellError {
    fn from(err: core::fmt::Error) -> (r: ShellError)
        ensures
            r == ShellError::FormatError(err),
    {
        ShellError::FormatError(err)
    }
}

impl vstd::std_specs::convert::FromSpecImpl<core::fmt::Error> for ShellError {
    open spec fn obeys_from_spec() -> bool {
        true
    }

    open spec fn from_spec(err: core::fmt::Error) -> ShellError {
        ShellError::FormatError(err)
    }
}

/// What a processed byte asks the environment to do.
pub enum Input {
    /// A control byte that the engine does not handle itself.
    Control(u8),
    /// A submitted line, split at its first space into command and arguments.
    Command((String, String)),
}

} // verus!
