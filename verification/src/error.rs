//! The error model: parse errors, overflow errors and conversion errors.
//!
//! All errors are returned as values from the boundary operations; no
//! operation panics on malformed input.

use vstd::prelude::*;

verus! {

/// What a parse error found in the input.
#[derive(Debug, Clone, Copy, PartialEq, Eq, Structural)]
pub enum ParseErrorKind {
    /// An unexpected byte, carried along.
    Char { got: u8 },
    /// The input ended while more was expected.
    End,
    /// The text buffer cannot hold the input.
    BufferTooSmall,
}

/// An error encountered parsing a decimal from text.
///
/// Carries what was found and a short human-readable statement of what was
/// expected instead.
#[derive(Debug, Clone, Copy)]
pub struct ParseError {
    pub kind: ParseErrorKind,
    pub expected: &'static str,
}

impl ParseError {
    pub fn buffer_too_small() -> (r: ParseError)
        ensures
            r.kind == ParseErrorKind::BufferTooSmall,
    {
        ParseError { kind: ParseErrorKind::BufferTooSmall, expected: "" }
    }

    pub fn unexpected_char(got: u8, expected: &'static str) -> (r: ParseError)
        ensures
            r.kind == (ParseErrorKind::Char { got }),
            r.expected == expected,
    {
        ParseError { kind: ParseErrorKind::Char { got }, expected }
    }

    pub fn unexpected_end(expected: &'static str) -> (r: ParseError)
        ensures
            r.kind == ParseErrorKind::End,
            r.expected == expected,
    {
        ParseError { kind: ParseErrorKind::End, expected }
    }
}

/// An error encountered creating a buffer to encode a decimal into.
///
/// Carries the maximum byte width the target supports and, when it is known,
/// the minimum byte width the value would need.
#[derive(Debug, Clone, Copy)]
pub struct OverflowError {
    pub max_width: usize,
    pub required_width: Option<usize>,
    pub note: &'static str,
}

impl OverflowError {
    pub fn would_overflow(max_width_bytes: usize, required_width_bytes: usize) -> (r:
        OverflowError)
        ensures
            r.max_width == max_width_bytes,
            r.required_width == Some(required_width_bytes),
    {
        OverflowError {
            max_width: max_width_bytes,
            required_width: Some(required_width_bytes),
            note: "",
        }
    }

    pub fn exact_size_mismatch(
        got_width_bytes: usize,
        required_width_bytes: usize,
        note: &'static str,
    ) -> (r: OverflowError)
        ensures
            r.max_width == got_width_bytes,
            r.required_width == Some(required_width_bytes),
            r.note == note,
    {
        OverflowError {
            max_width: got_width_bytes,
            required_width: Some(required_width_bytes),
            note,
        }
    }

    pub fn exponent_out_of_range(max_width_bytes: usize, note: &'static str) -> (r: OverflowError)
        ensures
            r.max_width == max_width_bytes,
            r.required_width is None,
            r.note == note,
    {
        OverflowError { max_width: max_width_bytes, required_width: None, note }
    }

    /// The maximum width supported by the given buffer.
    pub fn max_width_bytes(&self) -> (r: usize)
        ensures
            r == self.max_width,
    {
        self.max_width
    }

    /// The minimum width required to encode the given decimal.
    pub fn required_width_bytes(&self) -> (r: Option<usize>)
        ensures
            r == self.required_width,
    {
        self.required_width
    }
}

/// An error encountered converting between decimals and primitive types.
#[derive(Debug, Clone, Copy)]
pub struct ConvertError {
    pub target: &'static str,
    pub reason: &'static str,
}

impl ConvertError {
    pub fn would_overflow(target: &'static str) -> (r: ConvertError)
        ensures
            r.target == target,
            r.reason@ == "would overflow"@,
    {
        ConvertError { target, reason: "would overflow" }
    }

    pub fn non_integer(target: &'static str) -> (r: ConvertError)
        ensures
            r.target == target,
            r.reason@ == "would require rounding to an integer"@,
    {
        ConvertError { target, reason: "would require rounding to an integer" }
    }
}

/// Which failure an [`Error`] wraps.
#[derive(Debug, Clone, Copy)]
pub enum ErrorKind {
    Parse(ParseError),
    Overflow(OverflowError),
    Convert(ConvertError),
}

/// An error encountered while working with decimals.
#[derive(Debug, Clone, Copy)]
pub struct Error {
    pub kind: ErrorKind,
}

impl Error {
    pub fn from_parse(err: ParseError) -> (r: Error)
        ensures
            r.kind == ErrorKind::Parse(err),
    {
        Error { kind: ErrorKind::Parse(err) }
    }

    pub fn from_overflow(err: OverflowError) -> (r: Error)
        ensures
            r.kind == ErrorKind::Overflow(err),
    {
        Error { kind: ErrorKind::Overflow(err) }
    }

    pub fn from_convert(err: ConvertError) -> (r: Error)
        ensures
            r.kind == ErrorKind::Convert(err),
    {
        Error { kind: ErrorKind::Convert(err) }
    }
}

} // verus!
