//! Errors reported by the CSV parsers.

use crate::text::{append_hex_byte, hex_byte_text};
use vstd::prelude::*;
use vstd::string::StringExecFns;

verus! {

/// SBAT parse error.
#[derive(Clone, Copy, Debug, PartialEq, Eq, Structural)]
pub enum ParseError {
    /// The input holds a byte that is not 7-bit ASCII.
    InvalidAscii,
    /// A CSV field holds a byte that is neither alphanumeric nor one of
    /// the allowed punctuation bytes. The byte is carried along.
    SpecialChar(u8),
    /// A generation field is not a positive base-10 integer that fits
    /// in 32 bits.
    InvalidGeneration,
    /// A CSV record lacks the name or the generation field.
    TooFewFields,
    /// The storage that receives the records is full.
    TooManyRecords,
}

/// The message that describes `e`.
pub open spec fn parse_error_text(e: ParseError) -> Seq<char> {
    match e {
        ParseError::InvalidAscii => "CSV field is not ASCII"@,
        ParseError::SpecialChar(c) => "CSV field contains special character: 0x"@ + hex_byte_text(
            c,
        ),
        ParseError::InvalidGeneration => "invalid generation, must be a positive integer"@,
        ParseError::TooFewFields => "a CSV record does not have enough fields"@,
        ParseError::TooManyRecords => "too many records for the storage"@,
    }
}

impl ParseError {
    /// A message that describes the error. A special character is
    /// shown as its byte value in hexadecimal.
    pub fn message(&self) -> (text: String)
        ensures
            text@ == parse_error_text(*self),
    {
        match self {
            ParseError::InvalidAscii => String::from_str("CSV field is not ASCII"),
            ParseError::SpecialChar(c) => {
                let mut text = String::from_str("CSV field contains special character: 0x");
                append_hex_byte(&mut text, *c);
                text
            },
            ParseError::InvalidGeneration => String::from_str(
                "invalid generation, must be a positive integer",
            ),
            ParseError::TooFewFields => String::from_str(
                "a CSV record does not have enough fields",
            ),
            ParseError::TooManyRecords => String::from_str("too many records for the storage"),
        }
    }
}

} // verus!
