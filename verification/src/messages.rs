//! Human-readable renderings of the error types.
//!
//! Error-report formatting carries no numeric meaning of its own; the
//! messages restate the error fields for people.

use vstd::prelude::*;
use crate::bitstring::ascii_to_string;
use crate::error::{ConvertError, Error, ErrorKind, OverflowError, ParseError, ParseErrorKind};
use crate::num::nat_to_ascii;

verus! {

/// Append the bytes of a string slice.
fn push_str_bytes(out: &mut Vec<u8>, s: &str) {
    let bytes = s.as_bytes();
    out.extend_from_slice(bytes);
}

/// Append the decimal digits of a byte count.
fn push_count(out: &mut Vec<u8>, n: usize) {
    let mut digits = nat_to_ascii(n as u64);
    out.append(&mut digits);
}

impl ParseError {
    /// The error as human-readable text.
    pub fn message(&self) -> (r: String) {
        let mut out: Vec<u8> = Vec::new();
        match self.kind {
            ParseErrorKind::Char { got } => {
                push_str_bytes(&mut out, "unexpected character `");
                out.push(got);
                push_str_bytes(&mut out, "`");
            },
            ParseErrorKind::End => {
                push_str_bytes(&mut out, "unexpected end of input");
            },
            ParseErrorKind::BufferTooSmall => {
                push_str_bytes(&mut out, "the buffer is too small");
            },
        }
        let expected = self.expected;
        if expected.unicode_len() == 1 {
            push_str_bytes(&mut out, ", expected `");
            push_str_bytes(&mut out, expected);
            push_str_bytes(&mut out, "`");
        } else if expected.unicode_len() > 0 {
            push_str_bytes(&mut out, ", expected ");
            push_str_bytes(&mut out, expected);
        }
        ascii_to_string(&out)
    }
}

impl OverflowError {
    /// The error as human-readable text.
    pub fn message(&self) -> (r: String) {
        let mut out: Vec<u8> = Vec::new();
        push_str_bytes(&mut out, "the value cannot fit into a decimal of `");
        push_count(&mut out, self.max_width_bytes());
        push_str_bytes(&mut out, "` bytes");
        match self.required_width_bytes() {
            Some(required) => {
                push_str_bytes(&mut out, "; the width needed is `");
                push_count(&mut out, required);
                push_str_bytes(&mut out, "` bytes");
            },
            None => {},
        }
        let note = self.note;
        if note.unicode_len() > 0 {
            push_str_bytes(&mut out, "; ");
            push_str_bytes(&mut out, note);
        }
        ascii_to_string(&out)
    }
}

impl ConvertError {
    /// The error as human-readable text.
    pub fn message(&self) -> (r: String) {
        let mut out: Vec<u8> = Vec::new();
        push_str_bytes(&mut out, "conversion to `");
        push_str_bytes(&mut out, self.target);
        push_str_bytes(&mut out, "` ");
        push_str_bytes(&mut out, self.reason);
        ascii_to_string(&out)
    }
}

impl Error {
    /// The error as human-readable text.
    pub fn message(&self) -> (r: String) {
        match &self.kind {
            ErrorKind::Parse(e) => e.message(),
            ErrorKind::Overflow(e) => e.message(),
            ErrorKind::Convert(e) => e.message(),
        }
    }
}

} // verus!
