//! The ways in which decoding what the daemon prints can fail.

use vstd::prelude::*;

verus! {

/// Why a text of the daemon was rejected.
#[derive(Clone, Copy, Debug, PartialEq, Eq, Structural)]
pub enum Error {
    /// A byte quantity has no magnitude, a magnitude that is no number the
    /// library can hold, or a unit other than `B`, `kB`, `MB`, `GB`.
    InvalidByteFormat,
    /// A report line has not exactly nine fields, or its identifier or its
    /// status cannot be read.
    InvalidEntryFormat,
    /// What the daemon printed is no UTF-8 text.
    InvalidUtf8,
}

impl Error {
    /// A short description for the user.
    pub fn message(&self) -> (text: &'static str)
        ensures
            text@ == (match *self {
                Error::InvalidByteFormat => "invalid quantity format"@,
                Error::InvalidEntryFormat => "unrecognized entry format"@,
                Error::InvalidUtf8 => "invalid utf-8 sequence"@,
            }),
    {
        match self {
            Error::InvalidByteFormat => "invalid quantity format",
            Error::InvalidEntryFormat => "unrecognized entry format",
            Error::InvalidUtf8 => "invalid utf-8 sequence",
        }
    }
}

} // verus!
