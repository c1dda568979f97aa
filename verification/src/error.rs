use vstd::prelude::*;

verus! {

/// Why a buffer could not be decoded.
#[derive(Clone, Copy, Debug, PartialEq, Eq, Structural)]
pub enum ParseError {
    /// The buffer ends before the field being read.
    TruncatedInput,
    /// The four bytes of a tag are not valid UTF-8.
    InvalidEncoding,
    /// The header declares more payload bytes than follow it.
    UnexpectedEndOfFile,
}

impl ParseError {
    /// The diagnostic printed for this error.
    pub fn message(&self) -> (s: &'static str)
        ensures
            s@ == (match *self {
                ParseError::TruncatedInput => "truncated input"@,
                ParseError::InvalidEncoding => "invalid encoding"@,
                ParseError::UnexpectedEndOfFile => "unexpected end of file"@,
            }),
    {
        match self {
            ParseError::TruncatedInput => "truncated input",
            ParseError::InvalidEncoding => "invalid encoding",
            ParseError::UnexpectedEndOfFile => "unexpected end of file",
        }
    }
}

} // verus!
