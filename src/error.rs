//! Errors of the byte cursor and of the whole decode.
use crate::codec::{latin1_chars, latin1_text, TextCodec};
use vstd::array::array_as_slice;
use vstd::prelude::*;

verus! {

/// What went wrong while reading from a `PuzzleBuffer`.
#[derive(Debug)]
pub enum PuzzleBufferError {
    /// The marker searched for does not occur in the rest of the data.
    SeekError(String),
    /// The marker was found, but the offset moves the cursor outside the data.
    SeekOutOfRange(String),
    /// Text was decoded before a codec was chosen.
    EncodingNotInferred,
    /// A read needed more bytes than are left.
    UnexpectedEnd,
    /// No null byte ends the string.
    NoTerminator,
    /// The bytes are not valid text in the codec.
    Undecodable(TextCodec),
    /// The puzzle-type code is not one the format defines.
    UnknownPuzzleType(u16),
    /// The solution-state code is not one the format defines.
    UnknownSolutionState(u16),
    /// An extension's payload or trailing byte runs past the end of the data.
    ExtensionTruncated([u8; 4]),
    /// An extension's payload does not have the checksum its header declares.
    ExtensionChecksum { code: [u8; 4], calculated: u16, declared: u16 },
}

/// The decimal digits of `n`, as ASCII bytes, most significant first.
pub open spec fn decimal_bytes(n: nat) -> Seq<u8>
    decreases n,
{
    if n < 10 {
        seq![(0x30 + n) as u8]
    } else {
        decimal_bytes(n / 10).push((0x30 + n % 10) as u8)
    }
}

/// `n` written in decimal.
pub open spec fn decimal(n: nat) -> Seq<char> {
    latin1_chars(decimal_bytes(n))
}

fn decimal_digits(n: u64) -> (r: Vec<u8>)
    ensures
        r@ == decimal_bytes(n as nat),
    decreases n,
{
    if n < 10 {
        vec![(0x30 + n) as u8]
    } else {
        let mut digits = decimal_digits(n / 10);
        digits.push((0x30 + n % 10) as u8);
        digits
    }
}

/// `n` written in decimal.
pub fn decimal_text(n: u64) -> (r: String)
    ensures
        r@ == decimal(n as nat),
{
    let digits = decimal_digits(n);
    latin1_text(digits.as_slice())
}

/// An extension code as text, one character per byte.
fn code_text(code: &[u8; 4]) -> (r: String)
    ensures
        r@ == latin1_chars(code@),
{
    latin1_text(array_as_slice(code))
}

/// The sentence that describes a cursor error.
pub open spec fn buffer_error_message(e: PuzzleBufferError) -> Seq<char> {
    match e {
        PuzzleBufferError::SeekError(s) => "Cannot find '"@ + s@ + "' in data"@,
        PuzzleBufferError::SeekOutOfRange(s) => "Offset from '"@ + s@ + "' leaves the data"@,
        PuzzleBufferError::EncodingNotInferred => "Encoding has not been inferred"@,
        PuzzleBufferError::UnexpectedEnd => "Unexpected end of data"@,
        PuzzleBufferError::NoTerminator => "No terminator found"@,
        PuzzleBufferError::Undecodable(codec) => "Bytes are not valid "@ + codec.spec_name(),
        PuzzleBufferError::UnknownPuzzleType(code) => decimal(code as nat)
            + " is not a known puzzle type"@,
        PuzzleBufferError::UnknownSolutionState(code) => decimal(code as nat)
            + " is not a known solution state"@,
        PuzzleBufferError::ExtensionTruncated(code) => "Extension "@ + latin1_chars(code@)
            + " runs past the end of data"@,
        PuzzleBufferError::ExtensionChecksum { code, calculated, declared } => "Extension "@
            + latin1_chars(code@) + " calculated checksum ("@ + decimal(calculated as nat)
            + ") does not match header ("@ + decimal(declared as nat) + ")"@,
    }
}

impl PuzzleBufferError {
    /// A sentence that describes the error.
    pub fn to_string(&self) -> (r: String)
        ensures
            r@ == buffer_error_message(*self),
    {
        match self {
            PuzzleBufferError::SeekError(s) => {
                let mut r = String::from_str("Cannot find '");
                r.append(s.as_str());
                r.append("' in data");
                r
            },
            PuzzleBufferError::SeekOutOfRange(s) => {
                let mut r = String::from_str("Offset from '");
                r.append(s.as_str());
                r.append("' leaves the data");
                r
            },
            PuzzleBufferError::EncodingNotInferred => String::from_str("Encoding has not been inferred"),
            PuzzleBufferError::UnexpectedEnd => String::from_str("Unexpected end of data"),
            PuzzleBufferError::NoTerminator => String::from_str("No terminator found"),
            PuzzleBufferError::Undecodable(codec) => {
                let mut r = String::from_str("Bytes are not valid ");
                r.append(codec.name());
                r
            },
            PuzzleBufferError::UnknownPuzzleType(code) => {
                let mut r = decimal_text(*code as u64);
                r.append(" is not a known puzzle type");
                r
            },
            PuzzleBufferError::UnknownSolutionState(code) => {
                let mut r = decimal_text(*code as u64);
                r.append(" is not a known solution state");
                r
            },
            PuzzleBufferError::ExtensionTruncated(code) => {
                let mut r = String::from_str("Extension ");
                r.append(code_text(code).as_str());
                r.append(" runs past the end of data");
                r
            },
            PuzzleBufferError::ExtensionChecksum { code, calculated, declared } => {
                let mut r = String::from_str("Extension ");
                r.append(code_text(code).as_str());
                r.append(" calculated checksum (");
                r.append(decimal_text(*calculated as u64).as_str());
                r.append(") does not match header (");
                r.append(decimal_text(*declared as u64).as_str());
                r.append(")");
                r
            },
        }
    }
}

/// The part of the file that was being read when a decode failed.
#[derive(Debug, Clone, Copy, PartialEq, Eq, Structural)]
pub enum Field {
    Header,
    Solution,
    Fill,
    Title,
    Author,
    Copyright,
    /// The clue text of the given index, counted from 0 in file order.
    Clue(usize),
    Notes,
    Extensions,
}

/// Why a puzzle file was not accepted.
#[derive(Debug)]
pub enum PuzzleError {
    /// The `ACROSS&DOWN` marker does not occur, or too close to the start.
    MarkerNotFound,
    /// Reading the given field failed.
    Read(Field, PuzzleBufferError),
    /// The version string is not two dot-separated integers.
    VersionFormat,
    /// The field's bytes are not valid in the codec that the version selects.
    Decode { field: Field, codec: TextCodec, major: u64, minor: u64 },
    /// A text field cannot be written back in the codec.
    Encode { codec: TextCodec },
    GlobalChecksum { calculated: u16, declared: u16 },
    HeaderChecksum { calculated: u16, declared: u16 },
    MagicChecksum { calculated: u64, declared: u64 },
    /// The grid starts more clues than the file provides.
    OutOfClues,
    /// The grid starts fewer clues than the header declares.
    ClueCountMismatch { declared: usize, numbered: usize },
}

} // verus!
