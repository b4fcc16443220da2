//! Errors reported by the library.

use vstd::prelude::*;
use vstd::string::StringExecFns;

verus! {

/// What went wrong, with a text that describes the case.
#[derive(Debug)]
pub enum Error {
    BadFormat(String),
    Figment(String),
    FileNotFound(String),
    SerializeError(String),
    KeyNotFound(String),
}

/// The words that introduce the description of each kind of error.
pub open spec fn prefix_of(e: &Error) -> Seq<char> {
    match e {
        Error::BadFormat(_) => "Bad format; "@,
        Error::Figment(_) => "Figiment error; "@,
        Error::FileNotFound(_) => "File not found; "@,
        Error::SerializeError(_) => "Unable to serialize; "@,
        Error::KeyNotFound(_) => "Key not found; "@,
    }
}

/// The text that an error carries.
pub open spec fn detail_of(e: &Error) -> Seq<char> {
    match e {
        Error::BadFormat(s) => s@,
        Error::Figment(s) => s@,
        Error::FileNotFound(s) => s@,
        Error::SerializeError(s) => s@,
        Error::KeyNotFound(s) => s@,
    }
}

impl Error {
    /// A human-readable description of the error.
    pub fn message(&self) -> (r: String)
        ensures
            r@ == prefix_of(self) + detail_of(self),
    {
        let (mut out, detail) = match self {
            Error::BadFormat(s) => (String::from_str("Bad format; "), s),
            Error::Figment(s) => (String::from_str("Figiment error; "), s),
            Error::FileNotFound(s) => (String::from_str("File not found; "), s),
            Error::SerializeError(s) => (String::from_str("Unable to serialize; "), s),
            Error::KeyNotFound(s) => (String::from_str("Key not found; "), s),
        };
        out.append(detail.as_str());
        out
    }
}

} // verus!
