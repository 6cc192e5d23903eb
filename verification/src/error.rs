//! The library's error type.
use vstd::prelude::*;

verus! {

#[verifier::external_type_specification]
#[verifier::external_body]
pub struct ExIoError(std::io::Error);

/// What can go wrong in this library.
#[derive(Debug)]
#[non_exhaustive]
pub enum Error {
    /// Reading or writing failed.
    Io(std::io::Error),
    /// A value broke a rule of the format; the text says which.
    ValueValidation(&'static str),
    /// A subtitle block that starts at the given line is not standard; the text
    /// says why.
    NonStandardBlock((usize, &'static str)),
}

impl From<std::io::Error> for Error {
    fn from(e: std::io::Error) -> (r: Error) {
        Error::Io(e)
    }
}

impl vstd::std_specs::convert::FromSpecImpl<std::io::Error> for Error {
    open spec fn obeys_from_spec() -> bool {
        true
    }

    open spec fn from_spec(v: std::io::Error) -> Error {
        Error::Io(v)
    }
}

impl Error {
    /// Whether this is a value validation error carrying the message `msg`.
    pub open spec fn is_validation(self, msg: &str) -> bool {
        self matches Error::ValueValidation(m) && m@ == msg@
    }
}

/// The result type of this library.
pub type Result<T> = core::result::Result<T, Error>;

} // verus!
