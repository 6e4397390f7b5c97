//! The ways in which a run of the program can fail.

use vstd::prelude::*;
use vstd::std_specs::convert::FromSpecImpl;

verus! {

/// The error type of std's file operations. Verus knows it by name only and
/// sees nothing inside a value of it; the library carries such a value from
/// the caller's failed file operation to the caller's exit.
#[verifier::external_type_specification]
#[verifier::external_body]
pub struct ExIoError(std::io::Error);

/// Why a run ends in failure.
#[derive(Debug)]
pub enum AppError {
    /// No command was given.
    MissingCommand,
    /// The command needs arguments and none were given.
    MissingArgs,
    /// The command is not one the program knows.
    InvalidCommand,
    /// A file operation failed.
    IOError(std::io::Error),
}

impl From<std::io::Error> for AppError {
    /// A failed file operation becomes `IOError`, carrying the failure.
    fn from(e: std::io::Error) -> (r: AppError) {
        AppError::IOError(e)
    }
}

impl FromSpecImpl<std::io::Error> for AppError {
    open spec fn obeys_from_spec() -> bool {
        true
    }

    open spec fn from_spec(e: std::io::Error) -> AppError {
        AppError::IOError(e)
    }
}

} // verus!
