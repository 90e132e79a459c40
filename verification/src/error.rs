//! The failures that the library reports.
use crate::zlib::{error_description, zlib_error_description};
use vstd::prelude::*;

verus! {

/// An I/O failure of a byte source is carried through unchanged; nothing is known of
/// what is inside it.
#[verifier::external_type_specification]
#[verifier::external_body]
pub struct ExIoError(std::io::Error);

/// What can go wrong while an index is built or data is extracted.
#[derive(Debug)]
pub enum Error {
    /// The byte source failed.
    Io(std::io::Error),
    /// The byte source ended where more bytes had to follow.
    UnexpectedEof,
    /// The inflate engine did not start a session, and answered with this code.
    Init(i32),
    /// The inflate engine answered with this code where it may not.
    Inflate(i32),
    /// The index is empty, does not start at offset zero, or holds a malformed point.
    InvalidIndex,
    /// A seek asked for a position before the first byte or beyond what a `u64` holds.
    InvalidSeek,
    /// A byte was pushed back while another was still waiting to be read.
    PushbackFull,
}

impl Error {
    /// Whether this is a failure that a byte source reports of itself.
    pub open spec fn from_source(self) -> bool {
        self is Io || self is InvalidSeek
    }

    /// The failure in words; for a failure of the engine, the words for its code.
    pub open spec fn spec_description(self) -> Seq<char> {
        match self {
            Error::Io(_) => "Source error"@,
            Error::UnexpectedEof => "Unexpected end of source"@,
            Error::Init(code) => error_description(code),
            Error::Inflate(code) => error_description(code),
            Error::InvalidIndex => "Invalid index"@,
            Error::InvalidSeek => "Invalid seek"@,
            Error::PushbackFull => "Pushback buffer already full"@,
        }
    }

    /// The failure in words; for a failure of the engine, the words for its code.
    pub fn description(&self) -> (text: &'static str)
        ensures
            text@ == self.spec_description(),
    {
        match self {
            Error::Io(_) => "Source error",
            Error::UnexpectedEof => "Unexpected end of source",
            Error::Init(code) => zlib_error_description(*code),
            Error::Inflate(code) => zlib_error_description(*code),
            Error::InvalidIndex => "Invalid index",
            Error::InvalidSeek => "Invalid seek",
            Error::PushbackFull => "Pushback buffer already full",
        }
    }
}

} // verus!
