//! The program's error type: a thin sum over the error values that file
//! handling, numeric argument parsing and timestamp generation can raise.

use vstd::prelude::*;

verus! {

/// Declares `std::io::Error` so values of it can be carried through.
#[verifier::external_type_specification]
#[verifier::external_body]
pub struct ExIoError(std::io::Error);

/// Declares `std::num::ParseIntError` so values of it can be carried
/// through.
#[verifier::external_type_specification]
#[verifier::external_body]
pub struct ExParseIntError(std::num::ParseIntError);

/// Declares `std::time::SystemTimeError` so values of it can be carried
/// through.
#[verifier::external_type_specification]
#[verifier::external_body]
pub struct ExSystemTimeError(std::time::SystemTimeError);

/// One error of the command-line program: a file could not be written, a
/// numeric argument could not be parsed, or the clock could not be read.
pub enum CliError {
    File(std::io::Error),
    Parse(std::num::ParseIntError),
    Time(std::time::SystemTimeError),
}

impl From<std::io::Error> for CliError {
    fn from(err: std::io::Error) -> (r: CliError) {
        CliError::File(err)
    }
}

impl vstd::std_specs::convert::FromSpecImpl<std::io::Error> for CliError {
    open spec fn obeys_from_spec() -> bool {
        true
    }

    open spec fn from_spec(err: std::io::Error) -> CliError {
        CliError::File(err)
    }
}

impl From<std::num::ParseIntError> for CliError {
    fn from(err: std::num::ParseIntError) -> (r: CliError) {
        CliError::Parse(err)
    }
}

impl vstd::std_specs::convert::FromSpecImpl<std::num::ParseIntError> for CliError {
    open spec fn obeys_from_spec() -> bool {
        true
    }

    open spec fn from_spec(err: std::num::ParseIntError) -> CliError {
        CliError::Parse(err)
    }
}

impl From<std::time::SystemTimeError> for CliError {
    fn from(err: std::time::SystemTimeError) -> (r: CliError) {
        CliError::Time(err)
    }
}

impl vstd::std_specs::convert::FromSpecImpl<std::time::SystemTimeError> for CliError {
    open spec fn obeys_from_spec() -> bool {
        true
    }

    open spec fn from_spec(err: std::time::SystemTimeError) -> CliError {
        CliError::Time(err)
    }
}

} // verus!
