//! The text format: streaming parsers for finite numbers, infinities and
//! NaNs.
//!
//! A parser accepts ASCII in arbitrary chunks, accumulates the text it has
//! seen into a [`TextBuf`], and produces a parsed value whose ranges index
//! into that buffer. On success the ranges tile the accumulated text
//! exactly: sign, digits, decimal point, exponent marker, exponent sign and
//! exponent digits each sit where the ranges say they do.

use vstd::prelude::*;
use crate::error::{ParseError, ParseErrorKind};
use crate::significand::is_ascii_digit;
use vstd::string::StringSliceAdditionalSpecFns;

verus! {

/// A half-open byte range into a text buffer.
#[derive(Debug, Clone, Copy, PartialEq, Eq)]
pub struct TextRange {
    pub start: usize,
    pub end: usize,
}

/// An owned text buffer the parsers accumulate into, with an optional
/// capacity bound for callers that stream from a fixed-size source.
#[derive(Debug, Clone, PartialEq, Eq)]
pub struct TextBuf {
    pub ascii: Vec<u8>,
    pub capacity: Option<usize>,
}

impl TextBuf {
    /// An empty buffer that grows without bound.
    pub fn new() -> (r: TextBuf)
        ensures
            r.ascii@.len() == 0,
            r.capacity is None,
    {
        TextBuf { ascii: Vec::new(), capacity: None }
    }

    /// An empty buffer that holds at most `capacity` bytes.
    pub fn with_capacity(capacity: usize) -> (r: TextBuf)
        ensures
            r.ascii@.len() == 0,
            r.capacity == Some(capacity),
    {
        TextBuf { ascii: Vec::new(), capacity: Some(capacity) }
    }

    /// The accumulated text.
    pub fn get_ascii(&self) -> (r: &[u8])
        ensures
            r@ == self.ascii@,
    {
        self.ascii.as_slice()
    }

    /// How many more bytes the buffer can take, if it is bounded.
    pub fn remaining_capacity(&self) -> (r: Option<usize>)
        ensures
            match r {
                Some(n) => self.capacity is Some && n == (if self.capacity->0
                    >= self.ascii@.len() {
                    self.capacity->0 - self.ascii@.len()
                } else {
                    0int
                }),
                None => self.capacity is None,
            },
    {
        match self.capacity {
            Some(cap) => {
                if cap >= self.ascii.len() {
                    Some(cap - self.ascii.len())
                } else {
                    Some(0)
                }
            },
            None => None,
        }
    }

    /// Append one byte.
    fn push(&mut self, b: u8)
        requires
            old(self).ascii@.len() < 0x1000_0000,
        ensures
            final(self).ascii@ == old(self).ascii@.push(b),
            final(self).capacity == old(self).capacity,
    {
        self.ascii.push(b);
    }
}

/// Offsets and metadata for the decimal point of a parsed significand.
#[derive(Debug, Clone, Copy, PartialEq, Eq)]
pub struct ParsedDecimalPoint {
    pub decimal_point_range: TextRange,
}

/// Offsets and metadata for the significand parsed from a decimal.
#[derive(Debug, Clone, Copy, PartialEq, Eq)]
pub struct ParsedSignificand {
    pub significand_is_negative: bool,
    pub significand_range: TextRange,
    pub decimal_point: Option<ParsedDecimalPoint>,
}

/// Offsets and metadata for the exponent parsed from a decimal.
#[derive(Debug, Clone, Copy, PartialEq, Eq)]
pub struct ParsedExponent {
    pub exponent_is_negative: bool,
    pub exponent_range: TextRange,
}

/// The header of a parsed NaN: its sign and whether it is signaling.
#[derive(Debug, Clone, Copy, PartialEq, Eq)]
pub struct ParsedNanHeader {
    pub is_nan_signaling: bool,
    pub is_nan_negative: bool,
}

/// A finite number parsed from text: the accumulated text plus ranges for
/// the significand and the optional exponent.
#[derive(Debug, Clone, PartialEq, Eq)]
pub struct ParsedFinite {
    pub finite_buf: TextBuf,
    pub finite_significand: ParsedSignificand,
    pub finite_exponent: Option<ParsedExponent>,
}

/// An infinity parsed from text.
#[derive(Debug, Clone, Copy, PartialEq, Eq)]
pub struct ParsedInfinity {
    pub is_infinity_negative: bool,
}

/// A NaN parsed from text, with an optional payload range.
#[derive(Debug, Clone, PartialEq, Eq)]
pub struct ParsedNan {
    pub nan_buf: TextBuf,
    pub nan_header: ParsedNanHeader,
    pub nan_payload: Option<ParsedSignificand>,
}

/// A decimal number parsed from its textual representation.
#[derive(Debug, Clone, PartialEq, Eq)]
pub enum ParsedDecimal {
    /// The number is finite, like `-123.456e7`.
    Finite(ParsedFinite),
    /// The number is infinity, like `-inf`.
    Infinity(ParsedInfinity),
    /// The number is a NaN, like `nan`.
    Nan(ParsedNan),
}

/// A plus or minus sign.
pub open spec fn is_sign_byte(b: u8) -> bool {
    b == 43 || b == 45
}

/// Every byte of `b` in `[lo, hi)` is an ASCII digit.
pub open spec fn digits_in(b: Seq<u8>, lo: int, hi: int) -> bool {
    forall|i: int| lo <= i < hi ==> is_ascii_digit(#[trigger] b[i])
}

/// ASCII letters folded to lower case.
pub open spec fn spec_lower(c: u8) -> u8 {
    if 65 <= c <= 90 {
        (c + 32) as u8
    } else {
        c
    }
}


/// The first position at or after `i` that does not hold a digit.
pub open spec fn spec_scan_digits(s: Seq<u8>, i: int) -> int
    decreases s.len() - i,
{
    if i < 0 || i >= s.len() || !is_ascii_digit(s[i]) {
        i
    } else {
        spec_scan_digits(s, i + 1)
    }
}

/// What a digit scan yields: a run of digits, ended by the end of the text
/// or a non-digit.
pub proof fn lemma_scan_digits(s: Seq<u8>, i: int)
    requires
        0 <= i <= s.len(),
    ensures
        i <= spec_scan_digits(s, i) <= s.len(),
        digits_in(s, i, spec_scan_digits(s, i)),
        spec_scan_digits(s, i) < s.len() ==> !is_ascii_digit(s[spec_scan_digits(s, i)]),
    decreases s.len() - i,
{
    if i < s.len() && is_ascii_digit(s[i]) {
        lemma_scan_digits(s, i + 1);
    }
}

/// The tail of a finite number from position `i`: either the end of the
/// text, or an exponent marker, an optional sign, and digits to the end.
pub open spec fn spec_valid_finite_tail(s: Seq<u8>, i: int) -> bool {
    if i == s.len() {
        true
    } else if 0 <= i < s.len() && (s[i] == 101 || s[i] == 69) {
        let j = if i + 1 < s.len() && is_sign_byte(s[i + 1]) {
            i + 2
        } else {
            i + 1
        };
        spec_scan_digits(s, j) == s.len() && s.len() > j
    } else {
        false
    }
}

/// The texts the finite parser accepts: an optional sign, digits, an
/// optional decimal point with digits after it, and an optional exponent.
pub open spec fn spec_valid_finite(s: Seq<u8>) -> bool {
    let o: int = if s.len() > 0 && is_sign_byte(s[0]) {
        1
    } else {
        0
    };
    let d1 = spec_scan_digits(s, o);
    &&& s.len() <= 0x1000_0000
    &&& d1 > o
    &&& if d1 < s.len() && s[d1] == 46 {
        let d2 = spec_scan_digits(s, d1 + 1);
        d2 > d1 + 1 && spec_valid_finite_tail(s, d2)
    } else {
        spec_valid_finite_tail(s, d1)
    }
}


/// The tail of a viable finite prefix from position `i`: the end of the
/// text, or an exponent marker whose remainder is a sign and digits only.
pub open spec fn spec_viable_finite_tail(s: Seq<u8>, i: int) -> bool {
    i == s.len() || (0 <= i < s.len() && (s[i] == 101 || s[i] == 69) && {
        let j = if i + 1 < s.len() && is_sign_byte(s[i + 1]) {
            i + 2
        } else {
            i + 1
        };
        spec_scan_digits(s, j) == s.len()
    })
}

/// The texts the finite parser consumes without an error: every prefix of
/// a valid finite number, byte for byte.
pub open spec fn spec_viable_finite(s: Seq<u8>) -> bool {
    let o: int = if s.len() > 0 && is_sign_byte(s[0]) {
        1
    } else {
        0
    };
    let d1 = spec_scan_digits(s, o);
    &&& s.len() <= 0x1000_0000
    &&& (d1 == s.len() || (d1 > o && s[d1] == 46 && {
        let d2 = spec_scan_digits(s, d1 + 1);
        d2 == s.len() || (d2 > d1 + 1 && spec_viable_finite_tail(s, d2))
    }) || (d1 > o && spec_viable_finite_tail(s, d1)))
}

/// A complete valid finite text is a viable prefix of itself.
pub proof fn lemma_valid_finite_viable(s: Seq<u8>)
    requires
        spec_valid_finite(s),
    ensures
        spec_viable_finite(s),
{
    let o: int = if s.len() > 0 && is_sign_byte(s[0]) {
        1
    } else {
        0
    };
    lemma_scan_digits(s, o);
}

/// The significand ranges describe the head of the text `b` exactly:
/// an optional sign, digits, and at most one decimal point.
pub open spec fn spec_significand_wf(b: Seq<u8>, sig: ParsedSignificand) -> bool {
    let sr = sig.significand_range;
    &&& sr.start <= sr.end <= b.len()
    &&& (sr.start == 0 || (sr.start == 1 && b.len() >= 1 && is_sign_byte(b[0])))
    &&& sig.significand_is_negative == (sr.start == 1 && b[0] == 45)
    &&& match sig.decimal_point {
        Some(p) => {
            let ps = p.decimal_point_range.start;
            &&& sr.start < ps
            &&& p.decimal_point_range.end == ps + 1
            &&& ps + 1 <= sr.end
            &&& b[ps as int] == 46
            &&& digits_in(b, sr.start as int, ps as int)
            &&& digits_in(b, ps + 1, sr.end as int)
        },
        None => digits_in(b, sr.start as int, sr.end as int),
    }
}

/// The exponent ranges describe the tail of the text `b` exactly: the
/// marker `e` or `E` at `sig_end`, an optional sign, then digits to the
/// end.
pub open spec fn spec_exponent_wf(b: Seq<u8>, sig_end: int, er: ParsedExponent) -> bool {
    let r = er.exponent_range;
    &&& 0 <= sig_end < b.len()
    &&& sig_end + 1 <= r.start <= r.end == b.len()
    &&& (b[sig_end] == 101 || b[sig_end] == 69)
    &&& (r.start == sig_end + 1 || (r.start == sig_end + 2 && is_sign_byte(b[sig_end + 1])))
    &&& er.exponent_is_negative == (r.start == sig_end + 2 && b[sig_end + 1] == 45)
    &&& digits_in(b, r.start as int, r.end as int)
}


/// The texts the infinity parser consumes without an error: an optional
/// sign and any prefix of `infinity`, in any case.
pub open spec fn spec_viable_infinity(s: Seq<u8>) -> bool {
    let o: int = if s.len() > 0 && is_sign_byte(s[0]) {
        1
    } else {
        0
    };
    &&& s.len() <= 0x1000_0000
    &&& s.len() - o <= 8
    &&& forall|j: int| o <= j < s.len() ==> spec_lower(#[trigger] s[j]) == spec_infinity_letter(j - o)
}

/// A complete valid infinity text is a viable prefix of itself.
pub proof fn lemma_valid_infinity_viable(s: Seq<u8>)
    requires
        spec_valid_infinity(s),
    ensures
        spec_viable_infinity(s),
{
}

/// A complete parsed finite number: the ranges tile its text, there is at
/// least one digit in the significand, at least one digit after a decimal
/// point, and at least one digit in any exponent.
pub open spec fn spec_parsed_finite_wf(f: ParsedFinite) -> bool {
    let b = f.finite_buf.ascii@;
    let sr = f.finite_significand.significand_range;
    &&& b.len() <= 0x1000_0000
    &&& spec_significand_wf(b, f.finite_significand)
    &&& match f.finite_significand.decimal_point {
        Some(p) => sr.end > p.decimal_point_range.end,
        None => sr.end > sr.start,
    }
    &&& match f.finite_exponent {
        Some(e) => spec_exponent_wf(b, sr.end as int, e) && e.exponent_range.end
            > e.exponent_range.start,
        None => sr.end == b.len(),
    }
}

/// A complete parsed NaN: an optional sign, `nan` or `snan` in any case,
/// and an optional parenthesised run of payload digits.
pub open spec fn spec_parsed_nan_wf(n: ParsedNan) -> bool {
    let b = n.nan_buf.ascii@;
    let o: int = if b.len() > 0 && is_sign_byte(b[0]) {
        1
    } else {
        0
    };
    let s: int = if n.nan_header.is_nan_signaling {
        1
    } else {
        0
    };
    &&& b.len() >= o + s + 3
    &&& b.len() <= 0x1000_0000
    &&& n.nan_header.is_nan_negative == (o == 1 && b[0] == 45)
    &&& (n.nan_header.is_nan_signaling ==> spec_lower(b[o]) == 115)
    &&& spec_nan_letters(b, o, s, 3)
    &&& match n.nan_payload {
        Some(p) => {
            let r = p.significand_range;
            &&& r.start == o + s + 4
            &&& r.start <= r.end == b.len() - 1
            &&& b[r.start - 1] == 40
            &&& b[b.len() - 1] == 41
            &&& digits_in(b, r.start as int, r.end as int)
            &&& !p.significand_is_negative
            &&& p.decimal_point is None
        },
        None => b.len() == o + s + 3,
    }
}

/// A parser for a finite decimal number like `-123.456e-789`.
#[derive(Debug)]
pub struct FiniteParser {
    pub buf: TextBuf,
    pub significand: ParsedSignificand,
    pub exponent: Option<ParsedExponent>,
    pub has_sign: bool,
    pub has_decimal: bool,
    pub has_digits: bool,
}

impl FiniteParser {
    /// The parser's state describes the text it has accumulated so far.
    pub open spec fn wf(&self) -> bool {
        let b = self.buf.ascii@;
        let sr = self.significand.significand_range;
        &&& b.len() <= 0x1000_0000
        &&& match self.exponent {
            None => {
                &&& spec_significand_wf(b, self.significand)
                &&& sr.end == b.len()
                &&& self.has_decimal == self.significand.decimal_point is Some
                &&& self.has_sign == (sr.start == 1)
                &&& self.has_digits == match self.significand.decimal_point {
                    Some(p) => sr.end > p.decimal_point_range.end,
                    None => sr.end > sr.start,
                }
            },
            Some(er) => {
                let r = er.exponent_range;
                &&& spec_significand_wf(b, self.significand)
                &&& match self.significand.decimal_point {
                    Some(p) => sr.end > p.decimal_point_range.end,
                    None => sr.end > sr.start,
                }
                &&& spec_exponent_wf(b, sr.end as int, er)
                &&& self.has_sign == (r.start == sr.end + 2)
                &&& self.has_digits == (r.end > r.start)
            },
        }
    }

    /// A freshly begun parser over an empty unbounded buffer.
    pub open spec fn fresh(&self) -> bool {
        &&& self.buf.ascii@.len() == 0
        &&& self.buf.capacity is None
        &&& self.exponent is None
        &&& !self.has_sign
        &&& !self.has_digits
        &&& !self.has_decimal
    }

    /// Begin parsing a finite number into the given buffer.
    pub fn begin(buf: TextBuf) -> (r: FiniteParser)
        requires
            buf.ascii@.len() == 0,
        ensures
            r.wf(),
            r.buf == buf,
            r.exponent is None,
            !r.has_sign,
            !r.has_digits,
            !r.has_decimal,
    {
        FiniteParser {
            significand: ParsedSignificand {
                significand_is_negative: false,
                significand_range: TextRange { start: 0, end: 0 },
                decimal_point: None,
            },
            exponent: None,
            buf,
            has_sign: false,
            has_decimal: false,
            has_digits: false,
        }
    }

    /// Parse a complete finite number from a string.
    pub fn parse_str(input: &str) -> (r: Result<ParsedFinite, ParseError>)
        ensures
            r is Ok ==> spec_parsed_finite_wf(r->Ok_0) && r->Ok_0.finite_buf.ascii@
                == input.spec_bytes(),
            spec_valid_finite(input.spec_bytes()) ==> r is Ok,
    {
        let mut parser = FiniteParser::begin(TextBuf::new());
        match parser.parse_ascii(input.as_bytes()) {
            Ok(()) => parser.end(),
            Err(e) => Err(e),
        }
    }

    /// Feed a digit into the significand, checking buffer capacity first.
    pub fn checked_push_significand_digit(&mut self, digit: u8) -> (r: Result<(), ParseError>)
        requires
            old(self).wf(),
            old(self).buf.ascii@.len() < 0x1000_0000,
            old(self).exponent is None,
            !old(self).has_decimal,
            is_ascii_digit(digit),
        ensures
            r is Ok ==> final(self).wf() && final(self).exponent is None && !final(self).has_decimal && final(self).has_digits && final(self).buf.ascii@ == old(self).buf.ascii@.push(digit),
            r is Err <==> old(self).buf.capacity is Some && old(self).buf.capacity->0 <= old(
                self,
            ).buf.ascii@.len(),
            r is Err <==> old(self).buf.capacity is Some && old(self).buf.capacity->0 <= old(
                self,
            ).buf.ascii@.len(),
            r is Err <==> old(self).buf.capacity is Some && old(self).buf.capacity->0 <= old(
                self,
            ).buf.ascii@.len(),
            r is Err ==> r->Err_0.kind == ParseErrorKind::BufferTooSmall && *final(self) == *old(self),
    {
        match self.buf.remaining_capacity() {
            Some(0) => Err(ParseError::buffer_too_small()),
            _ => {
                self.push_significand_digit(digit);
                Ok(())
            },
        }
    }

    /// Feed a digit into the significand.
    pub(crate) fn push_significand_digit(&mut self, digit: u8)
        requires
            old(self).wf(),
            old(self).buf.ascii@.len() < 0x1000_0000,
            old(self).exponent is None,
            is_ascii_digit(digit),
        ensures
            final(self).wf(),
            final(self).exponent is None,
            final(self).has_decimal == old(self).has_decimal,
            final(self).has_sign == old(self).has_sign,
            final(self).has_digits,
            final(self).buf.ascii@ == old(self).buf.ascii@.push(digit),
    {
        self.has_digits = true;
        self.buf.push(digit);
        self.significand.significand_range.end = self.significand.significand_range.end + 1;
    }

    /// Mark the significand negative, checking buffer capacity first.
    pub fn checked_significand_is_negative(&mut self) -> (r: Result<(), ParseError>)
        requires
            old(self).wf(),
            old(self).buf.ascii@.len() < 0x1000_0000,
            old(self).exponent is None,
            !old(self).has_sign,
            !old(self).has_digits,
            !old(self).has_decimal,
        ensures
            r is Ok ==> final(self).wf() && final(self).exponent is None && !final(self).has_decimal && final(self).significand.significand_is_negative,
            r is Err ==> r->Err_0.kind == ParseErrorKind::BufferTooSmall && *final(self) == *old(self),
    {
        match self.buf.remaining_capacity() {
            Some(0) => Err(ParseError::buffer_too_small()),
            _ => {
                self.significand_is_negative();
                Ok(())
            },
        }
    }

    /// Mark the significand negative.
    pub(crate) fn significand_is_negative(&mut self)
        requires
            old(self).wf(),
            old(self).buf.ascii@.len() < 0x1000_0000,
            old(self).exponent is None,
            !old(self).has_sign,
            !old(self).has_digits,
            !old(self).has_decimal,
        ensures
            final(self).wf(),
            final(self).exponent is None,
            !final(self).has_decimal,
            final(self).has_sign,
            !final(self).has_digits,
            final(self).significand.significand_is_negative,
            final(self).buf.ascii@ == old(self).buf.ascii@.push(45),
            final(self).buf.capacity == old(self).buf.capacity,
    {
        self.has_sign = true;
        self.buf.push(45);
        self.significand.significand_is_negative = true;
        self.significand.significand_range.start = self.significand.significand_range.start + 1;
        self.significand.significand_range.end = self.significand.significand_range.end + 1;
    }

    /// Mark the significand positive (an explicit `+`).
    pub(crate) fn significand_is_positive(&mut self)
        requires
            old(self).wf(),
            old(self).buf.ascii@.len() < 0x1000_0000,
            old(self).exponent is None,
            !old(self).has_sign,
            !old(self).has_digits,
            !old(self).has_decimal,
        ensures
            final(self).wf(),
            final(self).exponent is None,
            !final(self).has_decimal,
            final(self).has_sign,
            !final(self).has_digits,
            !final(self).significand.significand_is_negative,
            final(self).buf.ascii@ == old(self).buf.ascii@.push(43),
            final(self).buf.capacity == old(self).buf.capacity,
    {
        self.has_sign = true;
        self.buf.push(43);
        self.significand.significand_is_negative = false;
        self.significand.significand_range.start = self.significand.significand_range.start + 1;
        self.significand.significand_range.end = self.significand.significand_range.end + 1;
    }

    /// Record the decimal point at the current position.
    pub(crate) fn push_significand_decimal_point(&mut self)
        requires
            old(self).wf(),
            old(self).buf.ascii@.len() < 0x1000_0000,
            old(self).exponent is None,
            !old(self).has_decimal,
            old(self).has_digits,
        ensures
            final(self).wf(),
            final(self).exponent is None,
            final(self).has_decimal,
            final(self).has_sign == old(self).has_sign,
            !final(self).has_digits,
            final(self).buf.ascii@ == old(self).buf.ascii@.push(46),
    {
        self.has_decimal = true;
        self.has_digits = false;
        let at = self.buf.ascii.len();
        self.buf.push(46);
        self.significand.decimal_point = Some(
            ParsedDecimalPoint { decimal_point_range: TextRange { start: at, end: at + 1 } },
        );
        self.significand.significand_range.end = self.significand.significand_range.end + 1;
    }

    /// Open the exponent, checking buffer capacity first.
    pub fn checked_begin_exponent(&mut self) -> (r: Result<(), ParseError>)
        requires
            old(self).wf(),
            old(self).buf.ascii@.len() < 0x1000_0000,
            old(self).exponent is None,
            old(self).has_digits,
        ensures
            r is Ok ==> final(self).wf() && final(self).exponent is Some && !final(self).has_digits && !final(self).has_sign,
            r is Err ==> r->Err_0.kind == ParseErrorKind::BufferTooSmall && *final(self) == *old(self),
    {
        match self.buf.remaining_capacity() {
            Some(0) => Err(ParseError::buffer_too_small()),
            _ => {
                self.begin_exponent();
                Ok(())
            },
        }
    }

    /// Open the exponent after its `e` marker.
    pub(crate) fn begin_exponent(&mut self)
        requires
            old(self).wf(),
            old(self).buf.ascii@.len() < 0x1000_0000,
            old(self).exponent is None,
            old(self).has_digits,
        ensures
            final(self).wf(),
            final(self).exponent is Some,
            !final(self).has_digits,
            !final(self).has_sign,
            final(self).buf.ascii@ == old(self).buf.ascii@.push(101),
    {
        self.has_sign = false;
        self.has_digits = false;
        self.buf.push(101);
        let at = self.buf.ascii.len();
        self.exponent = Some(
            ParsedExponent {
                exponent_is_negative: false,
                exponent_range: TextRange { start: at, end: at },
            },
        );
    }

    /// Parse a chunk of ASCII. The number may be split across any number of
    /// chunks; a chunk that parses cleanly extends the accumulated text by
    /// exactly that chunk, and a chunk that keeps the accumulated text a
    /// viable prefix of a finite number is always accepted when the buffer
    /// is unbounded.
    #[verifier::rlimit(100)]
    pub fn parse_ascii(&mut self, ascii: &[u8]) -> (r: Result<(), ParseError>)
        requires
            old(self).wf(),
        ensures
            r is Ok ==> final(self).wf() && final(self).buf.ascii@ == old(self).buf.ascii@
                + ascii@,
            old(self).wf() && old(self).buf.capacity is None && spec_viable_finite(
                old(self).buf.ascii@ + ascii@,
            ) ==> r is Ok,
            old(self).fresh() && spec_valid_finite(ascii@) ==> r is Ok && final(self).has_digits,
            r is Err ==> (r->Err_0.kind matches ParseErrorKind::Char { .. }
                && r->Err_0.expected@ == "any digit"@) || r->Err_0.kind
                == ParseErrorKind::BufferTooSmall,
            r is Err && r->Err_0.kind == ParseErrorKind::BufferTooSmall ==> (old(
                self,
            ).buf.capacity is Some && old(self).buf.capacity->0 < old(self).buf.ascii@.len()
                + ascii@.len()) || old(self).buf.ascii@.len() + ascii@.len() > 0x1000_0000,
    {
        let ghost s2 = old(self).buf.ascii@ + ascii@;
        let ghost q0 = old(self).buf.ascii@.len() as int;
        let ghost vh = old(self).wf() && old(self).buf.capacity is None && spec_viable_finite(s2);
        let ghost o: int = if s2.len() > 0 && is_sign_byte(s2[0]) {
            1
        } else {
            0
        };
        let ghost d1 = spec_scan_digits(s2, o);
        let ghost has_pt = vh && d1 < s2.len() && s2[d1] == 46;
        let ghost d2: int = if has_pt {
            spec_scan_digits(s2, d1 + 1)
        } else {
            d1
        };
        let ghost jexp: int = if vh && d2 < s2.len() {
            if d2 + 1 < s2.len() && is_sign_byte(s2[d2 + 1]) {
                d2 + 2
            } else {
                d2 + 1
            }
        } else {
            0
        };
        proof {
            if old(self).fresh() && spec_valid_finite(ascii@) {
                assert(old(self).buf.ascii@ + ascii@ =~= ascii@);
                lemma_valid_finite_viable(ascii@);
            }
            if vh {
                lemma_scan_digits(s2, o);
                if has_pt {
                    lemma_scan_digits(s2, d1 + 1);
                }
                if d2 < s2.len() {
                    lemma_scan_digits(s2, jexp);
                }
                // The well-formed state already sits at position `q0` of the
                // combined text: its ranges and flags match the scans there.
                let b = self.buf.ascii@;
                assert(b =~= s2.take(q0));
                assert(forall|x: int| 0 <= x < q0 ==> b[x] == s2[x]);
                let sr = self.significand.significand_range;
                match self.exponent {
                    None => {
                        assert(sr.end == q0);
                        if q0 > 0 {
                            assert(sr.start == o);
                        }
                        match self.significand.decimal_point {
                            Some(p) => {
                                let ps = p.decimal_point_range.start as int;
                                // The recorded point is the text's point.
                                assert(b[ps] == 46 && !is_ascii_digit(s2[ps]));
                                if ps < d1 {
                                    assert(is_ascii_digit(s2[ps]));
                                }
                                if ps > d1 {
                                    assert(o <= d1 < ps <= sr.end);
                                    assert(is_ascii_digit(b[d1]) || b[d1] == 46);
                                }
                                assert(ps == d1);
                                assert(has_pt);
                                assert(q0 <= d2);
                            },
                            None => {
                                assert(digits_in(b, sr.start as int, q0));
                                if q0 > d1 {
                                    assert(is_ascii_digit(s2[d1]));
                                }
                                assert(q0 <= d1);
                            },
                        }
                    },
                    Some(er) => {
                        let se = sr.end as int;
                        // The marker byte recorded at the end of the
                        // significand is the text's marker.
                        assert(b[se] == 101 || b[se] == 69);
                        match self.significand.decimal_point {
                            Some(p) => {
                                let ps = p.decimal_point_range.start as int;
                                assert(b[ps] == 46 && !is_ascii_digit(s2[ps]));
                                if ps < d1 {
                                    assert(is_ascii_digit(s2[ps]));
                                }
                                if ps > d1 {
                                    assert(is_ascii_digit(b[d1]) || b[d1] == 46);
                                }
                                assert(ps == d1);
                                assert(has_pt);
                                if se < d2 {
                                    assert(is_ascii_digit(s2[se]));
                                }
                                if se > d2 {
                                    assert(d1 + 1 <= d2 < se);
                                    assert(is_ascii_digit(b[d2]));
                                }
                                assert(se == d2);
                            },
                            None => {
                                if se < d1 {
                                    assert(is_ascii_digit(s2[se]));
                                }
                                if se > d1 {
                                    assert(is_ascii_digit(b[d1]));
                                }
                                assert(se == d1);
                                assert(!has_pt);
                            },
                        }
                        assert(d2 < s2.len() && q0 >= d2 + 1);
                        let rs = er.exponent_range.start as int;
                        if rs == se + 2 {
                            assert(is_sign_byte(s2[se + 1]));
                            assert(jexp == d2 + 2);
                        }
                        if rs == se + 1 && q0 >= d2 + 2 && is_sign_byte(s2[d2 + 1]) {
                            assert(is_ascii_digit(b[d2 + 1]));
                        }
                        assert(self.has_sign == (jexp == d2 + 2 && q0 >= jexp));
                        assert(self.has_digits == (q0 > jexp));
                    },
                }
            }
        }
        match self.buf.remaining_capacity() {
            Some(rc) => {
                if rc < ascii.len() {
                    return Err(ParseError::buffer_too_small());
                }
            },
            None => {},
        }
        if ascii.len() > 0x1000_0000 - self.buf.ascii.len() {
            return Err(ParseError::buffer_too_small());
        }
        let ghost orig = self.buf.ascii@;
        let n = ascii.len();
        let mut i: usize = 0;
        // The significand: digits around at most one decimal point.
        let mut in_significand = self.exponent.is_none();
        while i < n && in_significand
            invariant
                self.wf(),
                i <= n,
                n == ascii@.len(),
                in_significand == (self.exponent is None),
                orig.len() + n <= 0x1000_0000,
                self.buf.ascii@ == orig + ascii@.take(i as int),
                vh == (old(self).wf() && old(self).buf.capacity is None && spec_viable_finite(
                    old(self).buf.ascii@ + ascii@,
                )),
                (old(self).fresh() && spec_valid_finite(ascii@)) ==> vh,
                vh ==> s2 == old(self).buf.ascii@ + ascii@ && q0 == old(self).buf.ascii@.len()
                    && orig == old(self).buf.ascii@ && spec_viable_finite(s2) && o == (if s2.len()
                    > 0 && is_sign_byte(s2[0]) {
                    1int
                } else {
                    0int
                }) && d1 == spec_scan_digits(s2, o) && has_pt == (d1 < s2.len() && s2[d1] == 46)
                    && d2 == (if has_pt {
                    spec_scan_digits(s2, d1 + 1)
                } else {
                    d1
                }) && jexp == (if d2 < s2.len() {
                    if d2 + 1 < s2.len() && is_sign_byte(s2[d2 + 1]) {
                        d2 + 2
                    } else {
                        d2 + 1
                    }
                } else {
                    0int
                }),
                vh && in_significand ==> q0 + i <= d2 && self.has_sign == (o == 1 && q0 + i >= 1)
                    && self.has_decimal == (has_pt && q0 + i >= d1 + 1) && self.has_digits == (
                if has_pt && q0 + i >= d1 + 1 {
                    q0 + i >= d1 + 2
                } else {
                    q0 + i > o
                }),
                vh && !in_significand ==> d2 < s2.len() && d2 + 1 <= q0 + i && self.has_sign == (
                jexp == d2 + 2 && q0 + i >= jexp) && self.has_digits == (q0 + i > jexp),
            decreases n - i,
        {
            {
                proof {
                    if vh {
                        lemma_scan_digits(s2, o);
                        if has_pt {
                            lemma_scan_digits(s2, d1 + 1);
                        }
                        if d2 < s2.len() {
                            lemma_scan_digits(s2, jexp);
                        }
                        assert(ascii@[i as int] == s2[q0 + i]);
                    }
                }
                let c = ascii[i];
                if 48 <= c && c <= 57 {
                    self.push_significand_digit(c);
                } else if c == 45 && !self.has_sign && !self.has_digits && !self.has_decimal {
                    self.significand_is_negative();
                } else if c == 46 && !self.has_decimal && self.has_digits {
                    self.push_significand_decimal_point();
                } else if (c == 101 || c == 69) && self.has_digits {
                    // The marker keeps the byte the input used.
                    self.has_sign = false;
                    self.has_digits = false;
                    self.buf.push(c);
                    let at = self.buf.ascii.len();
                    self.exponent = Some(
                        ParsedExponent {
                            exponent_is_negative: false,
                            exponent_range: TextRange { start: at, end: at },
                        },
                    );
                    in_significand = false;
                } else if c == 43 && !self.has_sign && !self.has_digits && !self.has_decimal {
                    self.significand_is_positive();
                } else {
                    proof {
                        if vh {
                            // A viable prefix offers the loop a matching
                            // branch at every position.
                            let q = q0 + i;
                            if q < o {
                                assert(is_sign_byte(s2[0]));
                            } else if q < d1 {
                                assert(is_ascii_digit(s2[q]));
                            } else if has_pt && q == d1 {
                                assert(s2[q] == 46);
                            } else if has_pt && q < d2 {
                                assert(is_ascii_digit(s2[q]));
                            } else {
                                assert(q == d2 && d2 < s2.len());
                                assert(s2[q] == 101 || s2[q] == 69);
                            }
                            assert(false);
                        }
                    }
                    return Err(ParseError::unexpected_char(c, "any digit"));
                }
                proof {
                    assert(self.buf.ascii@ == orig + ascii@.take(i + 1));
                }
                i = i + 1;
            }
        }
        // The exponent: an optional sign then digits.
        if self.exponent.is_some() {
            while i < n
                invariant
                    self.wf(),
                    i <= n,
                    n == ascii@.len(),
                    self.exponent is Some,
                    orig.len() + n <= 0x1000_0000,
                    self.buf.ascii@ == orig + ascii@.take(i as int),
                    vh == (old(self).wf() && old(self).buf.capacity is None && spec_viable_finite(
                        old(self).buf.ascii@ + ascii@,
                    )),
                    (old(self).fresh() && spec_valid_finite(ascii@)) ==> vh,
                    vh ==> s2 == old(self).buf.ascii@ + ascii@ && q0 == old(self).buf.ascii@.len()
                        && orig == old(self).buf.ascii@ && spec_viable_finite(s2) && o == (
                    if s2.len() > 0 && is_sign_byte(s2[0]) {
                        1int
                    } else {
                        0int
                    }) && d1 == spec_scan_digits(s2, o) && has_pt == (d1 < s2.len() && s2[d1]
                        == 46) && d2 == (if has_pt {
                        spec_scan_digits(s2, d1 + 1)
                    } else {
                        d1
                    }) && jexp == (if d2 < s2.len() {
                        if d2 + 1 < s2.len() && is_sign_byte(s2[d2 + 1]) {
                            d2 + 2
                        } else {
                            d2 + 1
                        }
                    } else {
                        0int
                    }),
                    vh ==> d2 < s2.len() && d2 + 1 <= q0 + i && self.has_sign == (jexp == d2 + 2
                        && q0 + i >= jexp) && self.has_digits == (q0 + i > jexp),
                decreases n - i,
            {
                proof {
                    if vh {
                        lemma_scan_digits(s2, o);
                        if has_pt {
                            lemma_scan_digits(s2, d1 + 1);
                        }
                        if d2 < s2.len() {
                            lemma_scan_digits(s2, jexp);
                        }
                        assert(ascii@[i as int] == s2[q0 + i]);
                    }
                }
                let c = ascii[i];
                if 48 <= c && c <= 57 {
                    self.has_digits = true;
                    self.buf.push(c);
                    match &mut self.exponent {
                        Some(er) => {
                            er.exponent_range.end = er.exponent_range.end + 1;
                        },
                        None => {},
                    }
                } else if c == 45 && !self.has_sign && !self.has_digits {
                    self.has_sign = true;
                    self.buf.push(45);
                    match &mut self.exponent {
                        Some(er) => {
                            er.exponent_is_negative = true;
                            er.exponent_range.start = er.exponent_range.start + 1;
                            er.exponent_range.end = er.exponent_range.end + 1;
                        },
                        None => {},
                    }
                } else if c == 43 && !self.has_sign && !self.has_digits {
                    self.has_sign = true;
                    self.buf.push(43);
                    match &mut self.exponent {
                        Some(er) => {
                            er.exponent_is_negative = false;
                            er.exponent_range.start = er.exponent_range.start + 1;
                            er.exponent_range.end = er.exponent_range.end + 1;
                        },
                        None => {},
                    }
                } else {
                    proof {
                        if vh {
                            let q = q0 + i;
                            if q < jexp {
                                assert(q == d2 + 1 && is_sign_byte(s2[q]));
                            } else {
                                assert(is_ascii_digit(s2[q]));
                            }
                            assert(false);
                        }
                    }
                    return Err(ParseError::unexpected_char(c, "any digit"));
                }
                proof {
                    assert(self.buf.ascii@ == orig + ascii@.take(i + 1));
                }
                i = i + 1;
            }
        }
        proof {
            assert(ascii@.take(n as int) == ascii@);
            if old(self).fresh() && spec_valid_finite(ascii@) {
                assert(self.has_digits);
            }
        }
        Ok(())
    }

    /// Finish parsing. Succeeds exactly when at least one digit has been
    /// seen since the last boundary: after the decimal point, or after the
    /// exponent marker and its sign.
    pub fn end(self) -> (r: Result<ParsedFinite, ParseError>)
        requires
            self.wf(),
        ensures
            r is Ok <==> self.has_digits,
            r is Ok ==> spec_parsed_finite_wf(r->Ok_0) && r->Ok_0.finite_buf == self.buf,
            r is Err ==> r->Err_0.kind == ParseErrorKind::End,
    {
        if !self.has_digits {
            return Err(
                ParseError::unexpected_end(
                    if !self.has_sign {
                        "a sign or digit"
                    } else {
                        "any digit"
                    },
                ),
            );
        }
        Ok(
            ParsedFinite {
                finite_buf: self.buf,
                finite_significand: self.significand,
                finite_exponent: self.exponent,
            },
        )
    }
}

/// The letter of `infinity` expected at a given position.
fn infinity_expected_at(matched: usize) -> (r: &'static str)
    requires
        matched <= 8,
{
    if matched == 0 {
        "i"
    } else if matched == 1 {
        "n"
    } else if matched == 2 {
        "f"
    } else if matched == 3 {
        "i"
    } else if matched == 4 {
        "n"
    } else if matched == 5 {
        "i"
    } else if matched == 6 {
        "t"
    } else if matched == 7 {
        "y"
    } else {
        ""
    }
}

/// The lower-case letter of `infinity` at a given position.
pub open spec fn spec_infinity_letter(j: int) -> u8 {
    if j == 0 {
        105u8
    } else if j == 1 {
        110u8
    } else if j == 2 {
        102u8
    } else if j == 3 {
        105u8
    } else if j == 4 {
        110u8
    } else if j == 5 {
        105u8
    } else if j == 6 {
        116u8
    } else {
        121u8
    }
}


/// The texts the infinity parser accepts: an optional sign and then `inf`
/// or the whole of `infinity`, in any case.
pub open spec fn spec_valid_infinity(s: Seq<u8>) -> bool {
    let o: int = if s.len() > 0 && is_sign_byte(s[0]) {
        1
    } else {
        0
    };
    &&& s.len() <= 0x1000_0000
    &&& (s.len() - o == 3 || s.len() - o == 8)
    &&& forall|j: int| o <= j < s.len() ==> spec_lower(#[trigger] s[j]) == spec_infinity_letter(j - o)
}

/// The texts the NaN parser accepts: an optional sign, `nan` or `snan` in
/// any case, and an optional parenthesised run of digits.
pub open spec fn spec_valid_nan(s: Seq<u8>) -> bool {
    let o: int = if s.len() > 0 && is_sign_byte(s[0]) {
        1
    } else {
        0
    };
    let g: int = if s.len() > o && spec_lower(s[o]) == 115 {
        1
    } else {
        0
    };
    &&& s.len() <= 0x1000_0000
    &&& s.len() >= o + g + 3
    &&& spec_lower(s[o + g]) == 110
    &&& spec_lower(s[o + g + 1]) == 97
    &&& spec_lower(s[o + g + 2]) == 110
    &&& (s.len() == o + g + 3 || (s.len() >= o + g + 5 && s[o + g + 3] == 40 && s[s.len() - 1]
        == 41 && digits_in(s, o + g + 4, s.len() - 1)))
}

/// A parser for `inf` or `infinity`, case-insensitive, with an optional
/// leading sign.
#[derive(Debug)]
pub struct InfinityParser {
    pub buf: TextBuf,
    pub matched: usize,
    pub infinity: ParsedInfinity,
}

impl InfinityParser {
    /// The accumulated text is an optional sign followed by exactly the
    /// first `matched` letters of `infinity`, in any case, and the sign
    /// flag mirrors the sign byte.
    pub open spec fn wf(&self) -> bool {
        let b = self.buf.ascii@;
        let o: int = if b.len() > 0 && is_sign_byte(b[0]) {
            1
        } else {
            0
        };
        &&& self.matched <= 8
        &&& b.len() <= 0x1000_0000
        &&& b.len() == o + self.matched
        &&& self.infinity.is_infinity_negative == (o == 1 && b[0] == 45)
        &&& forall|j: int| o <= j < b.len() ==> spec_lower(#[trigger] b[j]) == spec_infinity_letter(
            j - o,
        )
    }

    /// Begin parsing an infinity into the given buffer.
    pub fn begin(buf: TextBuf) -> (r: InfinityParser)
        requires
            buf.ascii@.len() == 0,
        ensures
            r.wf(),
            r.matched == 0,
            r.buf == buf,
            !r.infinity.is_infinity_negative,
    {
        InfinityParser {
            buf,
            matched: 0,
            infinity: ParsedInfinity { is_infinity_negative: false },
        }
    }

    /// Record a leading `+` and keep its byte.
    pub(crate) fn infinity_is_positive(&mut self)
        requires
            old(self).wf(),
            old(self).matched == 0,
            old(self).buf.ascii@.len() == 0,
        ensures
            final(self).wf(),
            final(self).matched == 0,
            !final(self).infinity.is_infinity_negative,
            final(self).buf.ascii@ == old(self).buf.ascii@.push(43),
            final(self).buf.capacity == old(self).buf.capacity,
    {
        self.infinity.is_infinity_negative = false;
        self.buf.push(43);
    }

    /// Record a leading `-` and keep its byte.
    pub(crate) fn infinity_is_negative(&mut self)
        requires
            old(self).wf(),
            old(self).matched == 0,
            old(self).buf.ascii@.len() == 0,
        ensures
            final(self).wf(),
            final(self).matched == 0,
            final(self).infinity.is_infinity_negative,
            final(self).buf.ascii@ == old(self).buf.ascii@.push(45),
            final(self).buf.capacity == old(self).buf.capacity,
    {
        self.infinity.is_infinity_negative = true;
        self.buf.push(45);
    }

    /// Whether no letter has been consumed yet.
    pub(crate) fn is_at_start(&self) -> (r: bool)
        ensures
            r == (self.matched == 0),
    {
        self.matched == 0
    }

    /// The parser is freshly begun: no input seen at all.
    pub open spec fn fresh(&self) -> bool {
        &&& self.buf.ascii@.len() == 0
        &&& self.buf.capacity is None
        &&& self.matched == 0
        &&& !self.infinity.is_infinity_negative
    }

    /// Parse a chunk of ASCII: an optional sign before the first letter,
    /// then letters of `infinity` in order, in any case.
    pub fn parse_ascii(&mut self, ascii: &[u8]) -> (r: Result<(), ParseError>)
        requires
            old(self).wf(),
        ensures
            r is Ok ==> final(self).wf(),
            r is Ok ==> final(self).buf.ascii@ == old(self).buf.ascii@ + ascii@,
            r is Ok && old(self).matched > 0 ==> final(self).infinity == old(self).infinity
                && final(self).matched >= old(self).matched,
            old(self).wf() && old(self).buf.capacity is None && spec_viable_infinity(
                old(self).buf.ascii@ + ascii@,
            ) ==> r is Ok,
            old(self).fresh() && spec_valid_infinity(ascii@) ==> r is Ok && (final(self).matched
                == 3 || final(self).matched == 8),
            r is Ok && old(self).fresh() ==> final(self).infinity.is_infinity_negative == (
            ascii@.len() > 0 && ascii@[0] == 45),
            r is Err ==> (r->Err_0.kind matches ParseErrorKind::Char { .. }) || r->Err_0.kind
                == ParseErrorKind::BufferTooSmall,
            r is Err && r->Err_0.kind == ParseErrorKind::BufferTooSmall ==> (old(
                self,
            ).buf.capacity is Some && old(self).buf.capacity->0 < old(self).buf.ascii@.len()
                + ascii@.len()) || old(self).buf.ascii@.len() + ascii@.len() > 0x1000_0000,
    {
        let ghost complete = old(self).fresh() && spec_valid_infinity(ascii@);
        let ghost s2 = old(self).buf.ascii@ + ascii@;
        let ghost q0 = old(self).buf.ascii@.len() as int;
        let ghost vh = old(self).wf() && old(self).buf.capacity is None && spec_viable_infinity(
            s2,
        );
        let ghost o2: int = if s2.len() > 0 && is_sign_byte(s2[0]) {
            1
        } else {
            0
        };
        proof {
            if complete {
                assert(old(self).buf.ascii@ + ascii@ =~= ascii@);
                lemma_valid_infinity_viable(ascii@);
            }
            if vh {
                // The well-formed state sits at position `q0`: the sign is
                // the text's sign and `matched` letters are consumed.
                let b = self.buf.ascii@;
                assert(b =~= s2.take(q0));
                assert(forall|x: int| 0 <= x < q0 ==> b[x] == s2[x]);
                if q0 > 0 {
                    assert(self.matched == q0 - o2);
                } else {
                    assert(self.matched == 0);
                }
            }
        }
        match self.buf.remaining_capacity() {
            Some(rc) => {
                if rc < ascii.len() {
                    return Err(ParseError::buffer_too_small());
                }
            },
            None => {},
        }
        if ascii.len() > 0x1000_0000 - self.buf.ascii.len() {
            return Err(ParseError::buffer_too_small());
        }
        let n = ascii.len();
        let ghost orig = self.buf.ascii@;
        let mut i: usize = 0;
        while i < n
            invariant
                self.wf(),
                i <= n,
                n == ascii@.len(),
                self.buf.ascii@ == orig + ascii@.take(i as int),
                orig.len() + n <= 0x1000_0000,
                old(self).matched > 0 ==> self.infinity == old(self).infinity && self.matched
                    >= old(self).matched,
                vh == (old(self).wf() && old(self).buf.capacity is None && spec_viable_infinity(
                    old(self).buf.ascii@ + ascii@,
                )),
                (old(self).fresh() && spec_valid_infinity(ascii@)) ==> vh,
                vh ==> s2 == old(self).buf.ascii@ + ascii@ && q0 == old(self).buf.ascii@.len()
                    && orig == old(self).buf.ascii@ && spec_viable_infinity(s2) && o2 == (
                if s2.len() > 0 && is_sign_byte(s2[0]) {
                    1int
                } else {
                    0int
                }),
                vh ==> self.matched == (if q0 + i <= o2 {
                    0int
                } else {
                    q0 + i - o2
                }),
                old(self).fresh() ==> orig.len() == 0 && self.infinity.is_infinity_negative == (i
                    >= 1 && ascii@[0] == 45),
            decreases n - i,
        {
            let c = ascii[i];
            proof {
                if vh {
                    assert(ascii@[i as int] == s2[q0 + i]);
                    if q0 + i >= o2 {
                        assert(spec_lower(s2[q0 + i]) == spec_infinity_letter(q0 + i - o2));
                    }
                }
            }
            if c == 45 && self.is_at_start() && self.buf.ascii.len() == 0 {
                self.infinity_is_negative();
            } else if c == 43 && self.is_at_start() && self.buf.ascii.len() == 0 {
                self.infinity_is_positive();
            } else if self.matched < 8 && lower_ascii(c) == infinity_letter_at(
                self.matched,
            ) {
                self.matched = self.matched + 1;
                self.buf.push(c);
            } else {
                proof {
                    if vh {
                        assert(false);
                    }
                }
                return Err(ParseError::unexpected_char(c, infinity_expected_at(self.matched)));
            }
            proof {
                assert(self.buf.ascii@ == orig + ascii@.take(i + 1));
            }
            i = i + 1;
        }
        proof {
            assert(ascii@.take(n as int) == ascii@);
        }
        Ok(())
    }

    /// Finish parsing. Either `inf` or the full `infinity` is a valid
    /// terminal.
    pub fn end(self) -> (r: Result<ParsedInfinity, ParseError>)
        requires
            self.wf(),
        ensures
            r is Ok <==> (self.matched == 3 || self.matched == 8),
            r is Ok ==> r->Ok_0 == self.infinity,
            r is Err ==> r->Err_0.kind == ParseErrorKind::End,
    {
        if self.matched == 3 || self.matched == 8 {
            Ok(self.infinity)
        } else {
            Err(ParseError::unexpected_end(infinity_expected_at(self.matched)))
        }
    }
}

/// Fold an ASCII letter to lower case.
fn lower_ascii(c: u8) -> (r: u8)
    ensures
        r == spec_lower(c),
{
    if 65 <= c && c <= 90 {
        c + 32
    } else {
        c
    }
}

/// The expected letter of `infinity` at a given position, folded.
fn infinity_letter_at(j: usize) -> (r: u8)
    requires
        j < 8,
    ensures
        r == spec_infinity_letter(j as int),
{
    if j == 0 {
        105
    } else if j == 1 {
        110
    } else if j == 2 {
        102
    } else if j == 3 {
        105
    } else if j == 4 {
        110
    } else if j == 5 {
        105
    } else if j == 6 {
        116
    } else {
        121
    }
}

/// The lower-case letter of `nan` at a given position.
pub open spec fn spec_nan_letter(j: int) -> u8 {
    if j == 0 {
        110u8
    } else if j == 1 {
        97u8
    } else {
        110u8
    }
}

/// The first `count` letters of `nan` stand folded at `o + s`.
pub open spec fn spec_nan_letters(b: Seq<u8>, o: int, s: int, count: int) -> bool {
    forall|j: int| 0 <= j < count ==> spec_lower(#[trigger] b[o + s + j]) == spec_nan_letter(j)
}

/// What the NaN parser expects next, by position in `snan()`.
fn nan_expected_at(pos: usize) -> (r: &'static str)
    requires
        pos <= 6,
{
    if pos == 0 {
        "s"
    } else if pos == 1 {
        "n"
    } else if pos == 2 {
        "a"
    } else if pos == 3 {
        "n"
    } else if pos == 4 {
        "("
    } else if pos == 5 {
        ")"
    } else {
        ""
    }
}

/// The text a NaN parser has accumulated, by parser position.
///
/// Position 0 is the start (an optional sign seen), 1 is after a leading
/// `s`, 2 to 4 are through the letters of `nan`, 5 is inside the payload
/// parentheses and 6 is after the closing one.
pub open spec fn spec_nan_state_wf(
    b: Seq<u8>,
    pos: int,
    header: ParsedNanHeader,
    payload: Option<ParsedSignificand>,
) -> bool {
    let o: int = if b.len() > 0 && is_sign_byte(b[0]) {
        1
    } else {
        0
    };
    let s: int = if header.is_nan_signaling {
        1
    } else {
        0
    };
    &&& b.len() <= 0x1000_0000
    &&& header.is_nan_negative == (o == 1 && b[0] == 45)
    &&& (header.is_nan_signaling ==> pos >= 1 && b.len() > o && spec_lower(b[o]) == 115)
    &&& (pos == 1 ==> header.is_nan_signaling)
    &&& if pos == 0 {
        b.len() == o && !header.is_nan_signaling && payload is None
    } else if pos <= 4 {
        &&& b.len() == o + s + pos - 1
        &&& payload is None
        &&& spec_nan_letters(b, o, s, pos - 1)
    } else {
        &&& payload is Some
        &&& {
            let r = payload->0.significand_range;
            &&& r.start == o + s + 4
            &&& spec_nan_letters(b, o, s, 3)
            &&& b[r.start - 1] == 40
            &&& digits_in(b, r.start as int, r.end as int)
            &&& !payload->0.significand_is_negative
            &&& payload->0.decimal_point is None
            &&& if pos == 5 {
                r.end == b.len() && r.start <= r.end
            } else {
                pos == 6 && r.end == b.len() - 1 && r.start <= r.end && b[b.len() - 1] == 41
            }
        }
    }
}


/// The texts the NaN parser consumes without an error: every prefix of a
/// valid NaN, byte for byte.
pub open spec fn spec_viable_nan(s: Seq<u8>) -> bool {
    let o: int = if s.len() > 0 && is_sign_byte(s[0]) {
        1
    } else {
        0
    };
    let g: int = if s.len() > o && spec_lower(s[o]) == 115 {
        1
    } else {
        0
    };
    &&& s.len() <= 0x1000_0000
    &&& (forall|j: int|
        o + g <= j < s.len() && j < o + g + 3 ==> spec_lower(#[trigger] s[j]) == spec_nan_letter(
            j - o - g,
        ))
    &&& (s.len() <= o + g + 3 || (s[o + g + 3] == 40 && (digits_in(s, o + g + 4, s.len() as int)
        || (s.len() >= o + g + 5 && s[s.len() - 1] == 41 && digits_in(
        s,
        o + g + 4,
        s.len() - 1,
    )))))
}

/// A complete valid NaN text is a viable prefix of itself.
pub proof fn lemma_valid_nan_viable(s: Seq<u8>)
    requires
        spec_valid_nan(s),
    ensures
        spec_viable_nan(s),
{
    let o: int = if s.len() > 0 && is_sign_byte(s[0]) {
        1
    } else {
        0
    };
    let g: int = if s.len() > o && spec_lower(s[o]) == 115 {
        1
    } else {
        0
    };
    assert forall|j: int| o + g <= j < s.len() && j < o + g + 3 implies spec_lower(
        #[trigger] s[j],
    ) == spec_nan_letter(j - o - g) by {
        assert(j == o + g || j == o + g + 1 || j == o + g + 2);
    }
}

/// A well-formed NaN parser state over a prefix of a viable text sits at
/// the position in that text that its counter and flags describe.
proof fn lemma_nan_state_position(
    b: Seq<u8>,
    pos: int,
    header: ParsedNanHeader,
    payload: Option<ParsedSignificand>,
    s2: Seq<u8>,
)
    requires
        spec_nan_state_wf(b, pos, header, payload),
        pos <= 6,
        b.len() <= s2.len(),
        b == s2.take(b.len() as int),
        spec_viable_nan(s2),
    ensures
        ({
            let q0 = b.len() as int;
            let o2: int = if s2.len() > 0 && is_sign_byte(s2[0]) {
                1
            } else {
                0
            };
            let g2: int = if s2.len() > o2 && spec_lower(s2[o2]) == 115 {
                1
            } else {
                0
            };
            let has_close = s2.len() >= o2 + g2 + 5 && s2[s2.len() - 1] == 41;
            &&& pos == (if q0 <= o2 {
                0int
            } else if q0 <= o2 + g2 {
                1int
            } else if q0 <= o2 + g2 + 3 {
                q0 - o2 - g2 + 1
            } else if has_close && q0 == s2.len() {
                6int
            } else {
                5int
            })
            &&& (payload is Some <==> q0 > o2 + g2 + 3)
        }),
{
    let q0 = b.len() as int;
    let o2: int = if s2.len() > 0 && is_sign_byte(s2[0]) {
        1
    } else {
        0
    };
    let g2: int = if s2.len() > o2 && spec_lower(s2[o2]) == 115 {
        1
    } else {
        0
    };
    let has_close = s2.len() >= o2 + g2 + 5 && s2[s2.len() - 1] == 41;
    let ob: int = if b.len() > 0 && is_sign_byte(b[0]) {
        1
    } else {
        0
    };
    let sfl: int = if header.is_nan_signaling {
        1
    } else {
        0
    };
    assert(forall|x: int| 0 <= x < q0 ==> s2[x] == #[trigger] b[x]);
    if pos == 0 {
        assert(q0 == ob);
        if q0 == 1 {
            assert(o2 == 1);
        }
    } else {
        assert(q0 >= 1);
        assert(ob == o2);
        if header.is_nan_signaling {
            assert(spec_lower(b[ob]) == 115 && q0 > ob);
            assert(g2 == 1);
        } else {
            // The quiet parser has seen at least `n`, whose fold is not `s`.
            if pos <= 4 {
                assert(pos >= 2);
                assert(spec_lower(b[ob + 0]) == spec_nan_letter(0));
            } else {
                assert(spec_lower(b[ob + 0]) == spec_nan_letter(0));
            }
            assert(g2 == 0);
        }
        if pos <= 4 {
            assert(q0 == ob + sfl + pos - 1);
        } else {
            let r = payload->0.significand_range;
            assert(r.start == ob + sfl + 4);
            if pos == 5 {
                assert(r.end == q0);
                if has_close && q0 == s2.len() {
                    if q0 > r.start {
                        assert(is_ascii_digit(b[q0 - 1]));
                    } else {
                        assert(b[q0 - 1] == 40);
                    }
                    assert(false);
                }
            } else {
                assert(b[q0 - 1] == 41 && q0 - 1 >= o2 + g2 + 4);
                if q0 < s2.len() {
                    assert(s2[o2 + g2 + 3] == 40);
                    assert(is_ascii_digit(s2[q0 - 1]));
                    assert(false);
                }
            }
        }
    }
}

/// A parser for `nan`, `snan` and their payload-carrying forms, like
/// `nan(123)`, case-insensitive, with an optional leading sign.
#[derive(Debug)]
pub struct NanParser {
    pub buf: NanBuf,
    pub header: ParsedNanHeader,
    pub payload: Option<ParsedSignificand>,
}

/// The buffer a NaN parser writes through, together with its position in
/// the expected text `snan()`.
#[derive(Debug)]
pub struct NanBuf {
    pub pos: usize,
    pub buf: TextBuf,
}

impl NanParser {
    /// The parser state describes the text accumulated so far.
    pub open spec fn wf(&self) -> bool {
        &&& self.buf.pos <= 6
        &&& spec_nan_state_wf(self.buf.buf.ascii@, self.buf.pos as int, self.header, self.payload)
    }

    /// Begin parsing a NaN into the given buffer.
    pub fn begin(buf: TextBuf) -> (r: NanParser)
        requires
            buf.ascii@.len() == 0,
        ensures
            r.wf(),
            r.buf.pos == 0,
            r.buf.buf == buf,
            !r.header.is_nan_negative,
            !r.header.is_nan_signaling,
    {
        NanParser {
            buf: NanBuf { pos: 0, buf },
            header: ParsedNanHeader { is_nan_signaling: false, is_nan_negative: false },
            payload: None,
        }
    }

    /// Record a leading `+` and keep its byte.
    pub(crate) fn nan_is_positive(&mut self, b: u8)
        requires
            old(self).wf(),
            old(self).buf.pos == 0,
            old(self).buf.buf.ascii@.len() == 0,
            b == 43,
        ensures
            final(self).wf(),
            final(self).buf.pos == 0,
            !final(self).header.is_nan_negative,
            !final(self).header.is_nan_signaling,
            final(self).buf.buf.ascii@ == old(self).buf.buf.ascii@.push(b),
            final(self).buf.buf.capacity == old(self).buf.buf.capacity,
    {
        self.header.is_nan_negative = false;
        self.buf.buf.push(b);
    }

    /// Record a leading `-` and keep its byte.
    pub(crate) fn nan_is_negative(&mut self, b: u8)
        requires
            old(self).wf(),
            old(self).buf.pos == 0,
            old(self).buf.buf.ascii@.len() == 0,
            b == 45,
        ensures
            final(self).wf(),
            final(self).buf.pos == 0,
            final(self).header.is_nan_negative,
            !final(self).header.is_nan_signaling,
            final(self).buf.buf.ascii@ == old(self).buf.buf.ascii@.push(b),
            final(self).buf.buf.capacity == old(self).buf.buf.capacity,
    {
        self.header.is_nan_negative = true;
        self.buf.buf.push(b);
    }

    /// Consume the `n` of a quiet NaN.
    pub(crate) fn nan_is_quiet(&mut self, b: u8)
        requires
            old(self).wf(),
            old(self).buf.pos == 0,
            old(self).buf.buf.ascii@.len() < 0x1000_0000,
            spec_lower(b) == 110,
        ensures
            final(self).wf(),
            final(self).buf.pos == 2,
            final(self).header.is_nan_negative == old(self).header.is_nan_negative,
            !final(self).header.is_nan_signaling,
            final(self).buf.buf.ascii@ == old(self).buf.buf.ascii@.push(b),
            final(self).buf.buf.capacity == old(self).buf.buf.capacity,
    {
        self.header.is_nan_signaling = false;
        self.buf.pos = 2;
        self.buf.buf.push(b);
    }

    /// Consume the `s` of a signaling NaN.
    pub(crate) fn nan_is_signaling(&mut self, b: u8)
        requires
            old(self).wf(),
            old(self).buf.pos == 0,
            old(self).buf.buf.ascii@.len() < 0x1000_0000,
            spec_lower(b) == 115,
        ensures
            final(self).wf(),
            final(self).buf.pos == 1,
            final(self).header.is_nan_negative == old(self).header.is_nan_negative,
            final(self).header.is_nan_signaling,
            final(self).buf.buf.ascii@ == old(self).buf.buf.ascii@.push(b),
            final(self).buf.buf.capacity == old(self).buf.buf.capacity,
    {
        self.header.is_nan_signaling = true;
        self.buf.pos = 1;
        self.buf.buf.push(b);
    }

    /// The parser is freshly begun: no input seen at all.
    pub open spec fn fresh(&self) -> bool {
        &&& self.buf.buf.ascii@.len() == 0
        &&& self.buf.buf.capacity is None
        &&& self.buf.pos == 0
        &&& self.payload is None
        &&& !self.header.is_nan_signaling
        &&& !self.header.is_nan_negative
    }

    /// Consume one byte: each position of `snan()` accepts exactly the
    /// byte classes of its place in the text.
    fn nan_step(&mut self, c: u8) -> (r: Result<(), ParseError>)
        requires
            old(self).wf(),
            old(self).buf.buf.ascii@.len() < 0x1000_0000,
        ensures
            final(self).wf(),
            r is Ok <==> ({
                let pos = old(self).buf.pos;
                ||| (pos == 5 && is_ascii_digit(c))
                ||| (pos == 0 && old(self).buf.buf.ascii@.len() == 0 && is_sign_byte(c))
                ||| (pos == 0 && (spec_lower(c) == 110 || spec_lower(c) == 115))
                ||| (pos == 1 && spec_lower(c) == 110)
                ||| (pos == 2 && spec_lower(c) == 97)
                ||| (pos == 3 && spec_lower(c) == 110)
                ||| (pos == 4 && c == 40)
                ||| (pos == 5 && c == 41)
            }),
            r is Ok ==> final(self).buf.buf.ascii@ == old(self).buf.buf.ascii@.push(c) && final(self).buf.buf.capacity == old(self).buf.buf.capacity,
            r is Ok ==> final(self).buf.pos == ({
                let pos = old(self).buf.pos as int;
                if pos == 0 {
                    if old(self).buf.buf.ascii@.len() == 0 && is_sign_byte(c) {
                        0int
                    } else if spec_lower(c) == 115 {
                        1int
                    } else {
                        2int
                    }
                } else if pos == 5 {
                    if c == 41 {
                        6int
                    } else {
                        5int
                    }
                } else {
                    pos + 1
                }
            }),
            r is Ok ==> (final(self).payload is Some <==> (old(self).payload is Some || (old(self).buf.pos == 4 && c == 40))),
            r is Ok && old(self).buf.pos == 0 && old(self).buf.buf.ascii@.len() == 0
                && is_sign_byte(c) ==> final(self).header == (ParsedNanHeader {
                is_nan_negative: c == 45,
                is_nan_signaling: false,
            }),
            r is Ok && old(self).buf.pos == 0 && !(old(self).buf.buf.ascii@.len() == 0
                && is_sign_byte(c)) ==> final(self).header == (ParsedNanHeader {
                is_nan_negative: old(self).header.is_nan_negative,
                is_nan_signaling: spec_lower(c) == 115,
            }),
            old(self).buf.pos > 0 ==> final(self).buf.pos > 0 && final(self).header == old(self).header,
            r is Err ==> *final(self) == *old(self) && r->Err_0.kind == (ParseErrorKind::Char {
                got: c,
            }) && r->Err_0.expected@ == ""@,
    {
        let pos = self.buf.pos;
        if 48 <= c && c <= 57 && pos == 5 {
            // A payload digit between the parentheses.
            self.buf.buf.push(c);
            match &mut self.payload {
                Some(p) => {
                    p.significand_range.end = p.significand_range.end + 1;
                },
                None => {},
            }
        } else if c == 45 && pos == 0 && self.buf.buf.ascii.len() == 0 {
            self.nan_is_negative(c);
        } else if c == 43 && pos == 0 && self.buf.buf.ascii.len() == 0 {
            self.nan_is_positive(c);
        } else if (c == 110 || c == 78) && pos == 0 {
            self.nan_is_quiet(c);
        } else if (c == 115 || c == 83) && pos == 0 {
            self.nan_is_signaling(c);
        } else if c == 40 && pos == 4 {
            // Begin the payload.
            self.buf.buf.push(c);
            let at = self.buf.buf.ascii.len();
            self.buf.pos = 5;
            self.payload = Some(
                ParsedSignificand {
                    significand_is_negative: false,
                    significand_range: TextRange { start: at, end: at },
                    decimal_point: None,
                },
            );
        } else if c == 41 && pos == 5 {
            // Complete the payload.
            self.buf.buf.push(c);
            self.buf.pos = 6;
        } else if pos == 1 && lower_ascii(c) == 110 {
            self.buf.buf.push(c);
            self.buf.pos = 2;
        } else if pos == 2 && lower_ascii(c) == 97 {
            self.buf.buf.push(c);
            self.buf.pos = 3;
        } else if pos == 3 && lower_ascii(c) == 110 {
            self.buf.buf.push(c);
            self.buf.pos = 4;
        } else {
            return Err(ParseError::unexpected_char(c, ""));
        }
        Ok(())
    }

    /// Parse a chunk of ASCII.
    #[verifier::rlimit(100)]
    pub fn parse_ascii(&mut self, ascii: &[u8]) -> (r: Result<(), ParseError>)
        requires
            old(self).wf(),
        ensures
            r is Ok ==> final(self).wf() && final(self).buf.buf.ascii@ == old(
                self,
            ).buf.buf.ascii@ + ascii@,
            r is Ok && old(self).buf.pos > 0 ==> final(self).buf.pos > 0 && final(self).header
                == old(self).header,
            old(self).wf() && old(self).buf.buf.capacity is None && spec_viable_nan(
                old(self).buf.buf.ascii@ + ascii@,
            ) ==> r is Ok,
            old(self).fresh() && spec_valid_nan(ascii@) ==> r is Ok && (final(self).buf.pos == 6
                || (final(self).buf.pos == 4 && final(self).payload is None)),
            r is Err ==> (r->Err_0.kind matches ParseErrorKind::Char { .. }
                && r->Err_0.expected@ == ""@) || r->Err_0.kind == ParseErrorKind::BufferTooSmall,
            r is Err && r->Err_0.kind == ParseErrorKind::BufferTooSmall ==> (old(
                self,
            ).buf.buf.capacity is Some && old(self).buf.buf.capacity->0 < old(
                self,
            ).buf.buf.ascii@.len() + ascii@.len()) || old(self).buf.buf.ascii@.len()
                + ascii@.len() > 0x1000_0000,
    {
        let ghost complete = old(self).fresh() && spec_valid_nan(ascii@);
        let ghost s2 = old(self).buf.buf.ascii@ + ascii@;
        let ghost q0 = old(self).buf.buf.ascii@.len() as int;
        let ghost vh = old(self).wf() && old(self).buf.buf.capacity is None && spec_viable_nan(
            s2,
        );
        let ghost o2: int = if s2.len() > 0 && is_sign_byte(s2[0]) {
            1
        } else {
            0
        };
        let ghost g2: int = if s2.len() > o2 && spec_lower(s2[o2]) == 115 {
            1
        } else {
            0
        };
        let ghost has_close = s2.len() >= o2 + g2 + 5 && s2[s2.len() - 1] == 41;
        proof {
            if complete {
                assert(old(self).buf.buf.ascii@ + ascii@ =~= ascii@);
                lemma_valid_nan_viable(ascii@);
            }
            if vh {
                // The well-formed state sits at position `q0` of the
                // combined text.
                let b = self.buf.buf.ascii@;
                assert(b =~= s2.take(q0));
                lemma_nan_state_position(b, self.buf.pos as int, self.header, self.payload, s2);
            }
        }
        match self.buf.buf.remaining_capacity() {
            Some(rc) => {
                if rc < ascii.len() {
                    return Err(ParseError::buffer_too_small());
                }
            },
            None => {},
        }
        if ascii.len() > 0x1000_0000 - self.buf.buf.ascii.len() {
            return Err(ParseError::buffer_too_small());
        }
        let n = ascii.len();
        let ghost orig = self.buf.buf.ascii@;
        let mut i: usize = 0;
        while i < n
            invariant
                self.wf(),
                i <= n,
                n == ascii@.len(),
                self.buf.buf.ascii@ == orig + ascii@.take(i as int),
                orig.len() + n <= 0x1000_0000,
                old(self).buf.pos > 0 ==> self.buf.pos > 0 && self.header == old(self).header,
                vh == (old(self).wf() && old(self).buf.buf.capacity is None && spec_viable_nan(
                    old(self).buf.buf.ascii@ + ascii@,
                )),
                (old(self).fresh() && spec_valid_nan(ascii@)) ==> vh,
                vh ==> s2 == old(self).buf.buf.ascii@ + ascii@ && q0 == old(
                    self,
                ).buf.buf.ascii@.len() && orig == old(self).buf.buf.ascii@ && spec_viable_nan(s2)
                    && o2 == (if s2.len() > 0 && is_sign_byte(s2[0]) {
                    1int
                } else {
                    0int
                }) && g2 == (if s2.len() > o2 && spec_lower(s2[o2]) == 115 {
                    1int
                } else {
                    0int
                }) && has_close == (s2.len() >= o2 + g2 + 5 && s2[s2.len() - 1] == 41),
                vh ==> self.buf.pos == (if q0 + i <= o2 {
                    0int
                } else if q0 + i <= o2 + g2 {
                    1int
                } else if q0 + i <= o2 + g2 + 3 {
                    q0 + i - o2 - g2 + 1
                } else if has_close && q0 + i == s2.len() {
                    6int
                } else {
                    5int
                }),
                vh ==> (self.payload is Some <==> q0 + i > o2 + g2 + 3),
            decreases n - i,
        {
            proof {
                if vh {
                    // The byte at the current position of the viable text
                    // belongs to the class its position dictates.
                    let q = q0 + i;
                    assert(ascii@[i as int] == s2[q]);
                    let c2 = s2[q];
                    if q < o2 {
                        assert(q == 0 && is_sign_byte(c2));
                        assert(q + 1 <= o2);
                    } else if q == o2 && g2 == 1 {
                        assert(spec_lower(c2) == 115);
                        assert(q + 1 == o2 + g2);
                    } else if o2 + g2 <= q < o2 + g2 + 3 {
                        assert(spec_lower(c2) == spec_nan_letter(q - o2 - g2));
                        assert(q + 1 <= o2 + g2 + 3);
                    } else if q == o2 + g2 + 3 {
                        assert(c2 == 40);
                        assert(!(has_close && q + 1 == s2.len()));
                    } else if has_close && q == s2.len() - 1 {
                        assert(c2 == 41);
                        assert(q + 1 == s2.len());
                    } else {
                        assert(q > o2 + g2 + 3);
                        assert(is_ascii_digit(c2));
                        assert(!(has_close && q + 1 == s2.len()));
                    }
                }
            }
            let c = ascii[i];
            match self.nan_step(c) {
                Ok(()) => {},
                Err(e) => {
                    proof {
                        if vh {
                            assert(false);
                        }
                    }
                    return Err(e);
                },
            }
            proof {
                assert(self.buf.buf.ascii@ == orig + ascii@.take(i + 1));
            }
            i = i + 1;
        }
        proof {
            assert(ascii@.take(n as int) == ascii@);
        }
        Ok(())
    }

    /// Finish parsing. Valid terminals are a bare `nan` or `snan`, and a
    /// payload whose closing parenthesis has been seen.
    pub fn end(self) -> (r: Result<ParsedNan, ParseError>)
        requires
            self.wf(),
        ensures
            r is Ok <==> (self.buf.pos == 6 || (self.buf.pos == 4 && self.payload is None)),
            r is Ok ==> spec_parsed_nan_wf(r->Ok_0) && r->Ok_0.nan_buf == self.buf.buf
                && r->Ok_0.nan_header == self.header,
            r is Err ==> r->Err_0.kind == ParseErrorKind::End,
    {
        let pos = self.buf.pos;
        if pos == 6 {
            Ok(
                ParsedNan {
                    nan_buf: self.buf.buf,
                    nan_header: self.header,
                    nan_payload: self.payload,
                },
            )
        } else if pos == 4 {
            match self.payload {
                None => Ok(
                    ParsedNan {
                        nan_buf: self.buf.buf,
                        nan_header: self.header,
                        nan_payload: None,
                    },
                ),
                Some(_) => Err(ParseError::unexpected_end(nan_expected_at(pos))),
            }
        } else {
            Err(ParseError::unexpected_end(nan_expected_at(pos)))
        }
    }
}



/// The texts the decimal parser accepts: after an optional sign, a digit
/// opens a finite number, `i` an infinity, and `n` or `s` a NaN.
pub open spec fn spec_valid_decimal(s: Seq<u8>) -> bool {
    let o: int = if s.len() > 0 && is_sign_byte(s[0]) {
        1
    } else {
        0
    };
    &&& s.len() > o
    &&& if is_ascii_digit(s[o]) {
        spec_valid_finite(s)
    } else if spec_lower(s[o]) == 105 {
        spec_valid_infinity(s)
    } else if spec_lower(s[o]) == 110 || spec_lower(s[o]) == 115 {
        spec_valid_nan(s)
    } else {
        false
    }
}

/// Whether a parsed decimal is a faithful decomposition of the text `s`.
///
/// A finite number or NaN carries `s` itself as its buffer, tiled by its
/// ranges; an infinity keeps only its sign.
pub open spec fn spec_parsed_decimal_wf(d: ParsedDecimal, s: Seq<u8>) -> bool {
    match d {
        ParsedDecimal::Finite(f) => spec_parsed_finite_wf(f) && f.finite_buf.ascii@ == s,
        ParsedDecimal::Infinity(i) => spec_valid_infinity(s) && i.is_infinity_negative == (s.len()
            > 0 && s[0] == 45),
        ParsedDecimal::Nan(n) => spec_parsed_nan_wf(n) && n.nan_buf.ascii@ == s,
    }
}

/// The sign byte a stashed sign stands for, as text.
pub open spec fn spec_sign_seq(neg: Option<bool>) -> Seq<u8> {
    match neg {
        Some(true) => seq![45u8],
        Some(false) => seq![43u8],
        None => Seq::empty(),
    }
}

/// The texts the decimal parser consumes without an error: a prefix of a
/// valid finite number, infinity or NaN. An empty text and a bare sign are
/// prefixes of all three.
pub open spec fn spec_viable_decimal(s: Seq<u8>) -> bool {
    ||| spec_viable_finite(s)
    ||| spec_viable_infinity(s)
    ||| spec_viable_nan(s)
}

/// Which kind of number a decimal parser has committed to.
#[derive(Debug)]
pub enum DecimalParserState {
    /// Nothing beyond an optional sign has been seen.
    AtStart { buf: Option<TextBuf>, is_negative: Option<bool> },
    /// The number is finite.
    Finite(FiniteParser),
    /// The number is an infinity.
    Infinity(InfinityParser),
    /// The number is a NaN.
    Nan(NanParser),
}

/// A parser for a decimal number that may be finite, infinite, or NaN.
///
/// The first meaningful character decides which sub-parser takes over:
/// a digit opens a finite number, `i` an infinity, `n` a quiet NaN and `s`
/// a signaling NaN.
#[derive(Debug)]
pub struct DecimalParser {
    pub state: DecimalParserState,
}

impl DecimalParser {
    /// The parser and whichever sub-parser it has committed to are
    /// internally consistent.
    pub open spec fn wf(&self) -> bool {
        match self.state {
            DecimalParserState::AtStart { buf, is_negative } => buf is Some
                && buf->0.ascii@.len() == 0,
            DecimalParserState::Finite(f) => f.wf(),
            DecimalParserState::Infinity(p) => p.wf(),
            DecimalParserState::Nan(p) => p.wf(),
        }
    }

    /// The parser is freshly begun: no input seen at all.
    pub open spec fn fresh(&self) -> bool {
        match self.state {
            DecimalParserState::AtStart { buf, is_negative } => buf is Some
                && buf->0.ascii@.len() == 0 && buf->0.capacity is None && is_negative is None,
            _ => false,
        }
    }

    /// The parser can finish successfully from its current state.
    pub open spec fn end_ready(&self) -> bool {
        match self.state {
            DecimalParserState::AtStart { .. } => false,
            DecimalParserState::Finite(f) => f.has_digits,
            DecimalParserState::Infinity(p) => p.matched == 3 || p.matched == 8,
            DecimalParserState::Nan(p) => p.buf.pos == 6 || (p.buf.pos == 4 && p.payload
                is None),
        }
    }

    /// Begin parsing a decimal into the given buffer.
    pub fn begin(buf: TextBuf) -> (r: DecimalParser)
        requires
            buf.ascii@.len() == 0,
        ensures
            r.wf(),
            buf.capacity is None ==> r.fresh(),
            r.state matches DecimalParserState::AtStart { buf: b, is_negative } && b == Some(buf)
                && is_negative is None,
    {
        DecimalParser { state: DecimalParserState::AtStart { buf: Some(buf), is_negative: None } }
    }

    /// Parse a complete decimal from a string.
    pub fn parse_str(input: &str) -> (r: Result<ParsedDecimal, ParseError>)
        ensures
            r is Ok ==> spec_parsed_decimal_wf(r->Ok_0, input.spec_bytes()),
            spec_valid_decimal(input.spec_bytes()) ==> r is Ok,
    {
        let mut parser = DecimalParser::begin(TextBuf::new());
        match parser.parse_ascii(input.as_bytes()) {
            Ok(()) => parser.end(),
            Err(e) => Err(e),
        }
    }

    /// Parse a chunk of ASCII, committing to a kind of number at the first
    /// character that decides one.
    pub fn parse_ascii(&mut self, ascii: &[u8]) -> (r: Result<(), ParseError>)
        requires
            old(self).wf(),
        ensures
            r is Ok ==> final(self).wf(),
            r is Ok && old(self).fresh() ==> match final(self).state {
                DecimalParserState::AtStart { buf, is_negative } => (match is_negative {
                    Some(neg) => ascii@.len() == 1 && is_sign_byte(ascii@[0]) && neg == (ascii@[0]
                        == 45),
                    None => ascii@.len() == 0,
                }),
                DecimalParserState::Finite(f) => f.buf.ascii@ == ascii@,
                DecimalParserState::Nan(p) => p.buf.buf.ascii@ == ascii@,
                DecimalParserState::Infinity(p) => p.buf.ascii@ == ascii@
                    && p.infinity.is_infinity_negative == (ascii@.len() > 0 && ascii@[0] == 45),
            },
            old(self).fresh() && spec_valid_decimal(ascii@) ==> r is Ok && final(self).end_ready(),
            match old(self).state {
                DecimalParserState::AtStart { buf, is_negative } => ((buf->0.capacity is None
                    && spec_viable_decimal(spec_sign_seq(is_negative) + ascii@)) ==> r is Ok),
                DecimalParserState::Finite(f) => ((f.buf.capacity is None && spec_viable_finite(
                    f.buf.ascii@ + ascii@,
                )) ==> r is Ok),
                DecimalParserState::Infinity(p) => ((p.buf.capacity is None
                    && spec_viable_infinity(p.buf.ascii@ + ascii@)) ==> r is Ok),
                DecimalParserState::Nan(p) => ((p.buf.buf.capacity is None && spec_viable_nan(
                    p.buf.buf.ascii@ + ascii@,
                )) ==> r is Ok),
            },
            r is Ok ==> match old(self).state {
                DecimalParserState::Finite(f0) => final(self).state matches
                    DecimalParserState::Finite(f1) && f1.buf.ascii@ == f0.buf.ascii@ + ascii@,
                DecimalParserState::Nan(p0) => final(self).state matches DecimalParserState::Nan(
                    p1,
                ) && p1.buf.buf.ascii@ == p0.buf.buf.ascii@ + ascii@,
                DecimalParserState::Infinity(p0) => final(self).state matches
                    DecimalParserState::Infinity(p1) && p1.buf.ascii@ == p0.buf.ascii@ + ascii@,
                DecimalParserState::AtStart { .. } => true,
            },
            r is Err ==> (r->Err_0.kind matches ParseErrorKind::Char { .. }) || r->Err_0.kind
                == ParseErrorKind::BufferTooSmall,
            old(self).fresh() && ascii@.len() <= 0x1000_0000 && r is Err ==> r->Err_0.kind
                matches ParseErrorKind::Char { .. },
            old(self).fresh() ==> ({
                let fm: int = if ascii@.len() > 0 && is_sign_byte(ascii@[0]) {
                    1
                } else {
                    0
                };
                (fm < ascii@.len() && !is_ascii_digit(ascii@[fm]) && spec_lower(ascii@[fm]) != 105
                    && spec_lower(ascii@[fm]) != 110 && spec_lower(ascii@[fm]) != 115) ==> r
                    is Err && r->Err_0.kind == (ParseErrorKind::Char { got: ascii@[fm] })
                    && r->Err_0.expected@ == "a finite number, infinity, or NaN"@
            }),
    {
        let n = ascii.len();
        let mut idx: usize = 0;
        let ghost t = match old(self).state {
            DecimalParserState::AtStart { buf, is_negative } => spec_sign_seq(is_negative)
                + ascii@,
            _ => ascii@,
        };
        let ghost vh = match old(self).state {
            DecimalParserState::AtStart { buf, is_negative } => buf->0.capacity is None
                && spec_viable_decimal(t),
            _ => false,
        };
        let ghost ot: int = if t.len() > 0 && is_sign_byte(t[0]) {
            1
        } else {
            0
        };
        let is_at_start = match &self.state {
            DecimalParserState::AtStart { .. } => true,
            _ => false,
        };
        if is_at_start {
            let mut st = DecimalParserState::AtStart { buf: None, is_negative: None };
            core::mem::swap(&mut self.state, &mut st);
            let (buf0, neg0) = match st {
                DecimalParserState::AtStart { buf, is_negative } => (buf, is_negative),
                _ => (None, None),
            };
            let buf = match buf0 {
                Some(b) => b,
                None => TextBuf::new(),
            };
            if n == 0 {
                self.state = DecimalParserState::AtStart { buf: Some(buf), is_negative: neg0 };
                return Ok(());
            }
            // Peek past a leading sign in this chunk; the chosen sub-parser
            // reads the whole chunk itself, sign included. A sign stashed
            // from an earlier chunk is replayed into the sub-parser instead.
            let cidx: usize = if neg0.is_none() && (ascii[0] == 45 || ascii[0] == 43) {
                1
            } else {
                0
            };
            if cidx == n {
                self.state = DecimalParserState::AtStart {
                    buf: Some(buf),
                    is_negative: Some(ascii[0] == 45),
                };
                return Ok(());
            }
            let c = ascii[cidx];
            proof {
                if vh {
                    // `c` stands at the first position past the sign of the
                    // combined text, whose class decides the viable kinds.
                    if neg0 is Some {
                        assert(t[0] == 45 || t[0] == 43);
                        assert(ot == 1 && cidx == 0);
                        assert(t[ot] == ascii@[0]);
                    } else {
                        assert(t =~= ascii@);
                    }
                    assert(c == t[ot] && ot < t.len());
                    assert(spec_scan_digits(t, ot) == ot || is_ascii_digit(t[ot]));
                }
            }
            if 48 <= c && c <= 57 {
                let mut finite = FiniteParser::begin(buf);
                match neg0 {
                    Some(true) => finite.significand_is_negative(),
                    Some(false) => finite.significand_is_positive(),
                    None => {},
                }
                proof {
                    if vh {
                        if spec_viable_infinity(t) {
                            assert(spec_lower(t[ot]) == spec_infinity_letter(0));
                            assert(false);
                        }
                        if spec_viable_nan(t) {
                            assert(spec_lower(t[ot]) == spec_nan_letter(0));
                            assert(false);
                        }
                        assert(spec_viable_finite(t));
                        assert(finite.buf.ascii@ =~= spec_sign_seq(neg0));
                    }
                }
                self.state = DecimalParserState::Finite(finite);
            } else if c == 115 || c == 83 {
                let mut nan = NanParser::begin(buf);
                match neg0 {
                    Some(true) => nan.nan_is_negative(45),
                    Some(false) => nan.nan_is_positive(43),
                    None => {},
                }
                proof {
                    if vh {
                        assert(spec_scan_digits(t, ot) == ot);
                        assert(!spec_viable_finite(t));
                        if spec_viable_infinity(t) {
                            assert(spec_lower(t[ot]) == spec_infinity_letter(0));
                            assert(false);
                        }
                        assert(spec_viable_nan(t));
                        assert(nan.buf.buf.ascii@ =~= spec_sign_seq(neg0));
                    }
                }
                self.state = DecimalParserState::Nan(nan);
            } else if c == 110 || c == 78 {
                let mut nan = NanParser::begin(buf);
                match neg0 {
                    Some(true) => nan.nan_is_negative(45),
                    Some(false) => nan.nan_is_positive(43),
                    None => {},
                }
                proof {
                    if vh {
                        assert(spec_scan_digits(t, ot) == ot);
                        assert(!spec_viable_finite(t));
                        if spec_viable_infinity(t) {
                            assert(spec_lower(t[ot]) == spec_infinity_letter(0));
                            assert(false);
                        }
                        assert(spec_viable_nan(t));
                        assert(nan.buf.buf.ascii@ =~= spec_sign_seq(neg0));
                    }
                }
                self.state = DecimalParserState::Nan(nan);
            } else if c == 105 || c == 73 {
                let mut inf = InfinityParser::begin(buf);
                match neg0 {
                    Some(true) => inf.infinity_is_negative(),
                    Some(false) => inf.infinity_is_positive(),
                    None => {},
                }
                proof {
                    if vh {
                        assert(spec_scan_digits(t, ot) == ot);
                        assert(!spec_viable_finite(t));
                        if spec_viable_nan(t) {
                            assert(spec_lower(t[ot]) == spec_nan_letter(0));
                            assert(false);
                        }
                        assert(spec_viable_infinity(t));
                        assert(inf.buf.ascii@ =~= spec_sign_seq(neg0));
                    }
                }
                self.state = DecimalParserState::Infinity(inf);
            } else {
                proof {
                    if vh {
                        assert(spec_scan_digits(t, ot) == ot);
                        assert(!spec_viable_finite(t));
                        if spec_viable_infinity(t) {
                            assert(spec_lower(t[ot]) == spec_infinity_letter(0));
                            assert(false);
                        }
                        if spec_viable_nan(t) {
                            assert(spec_lower(t[ot]) == spec_nan_letter(0));
                            assert(false);
                        }
                        assert(false);
                    }
                }
                return Err(ParseError::unexpected_char(c, "a finite number, infinity, or NaN"));
            }
        }
        let rest = vstd::slice::slice_subrange(ascii, idx, n);
        proof {
            assert(rest@ == ascii@);
            if vh {
                match &self.state {
                    DecimalParserState::Finite(f) => {
                        assert(f.buf.ascii@ + ascii@ =~= t);
                    },
                    DecimalParserState::Infinity(p) => {
                        assert(p.buf.ascii@ + ascii@ =~= t);
                    },
                    DecimalParserState::Nan(p) => {
                        assert(p.buf.buf.ascii@ + ascii@ =~= t);
                    },
                    DecimalParserState::AtStart { .. } => {},
                }
            }
        }
        let r = match &mut self.state {
            DecimalParserState::Finite(f) => f.parse_ascii(rest),
            DecimalParserState::Infinity(p) => p.parse_ascii(rest),
            DecimalParserState::Nan(p) => p.parse_ascii(rest),
            DecimalParserState::AtStart { .. } => Ok(()),
        };
        r
    }

    /// Finish parsing.
    pub fn end(self) -> (r: Result<ParsedDecimal, ParseError>)
        requires
            self.wf(),
        ensures
            r is Ok <==> self.end_ready(),
            r is Ok ==> match r->Ok_0 {
                ParsedDecimal::Finite(pf) => {
                    &&& spec_parsed_finite_wf(pf)
                    &&& self.state matches DecimalParserState::Finite(f) && pf.finite_buf == f.buf
                },
                ParsedDecimal::Infinity(pi) => self.state matches DecimalParserState::Infinity(p)
                    && pi == p.infinity,
                ParsedDecimal::Nan(pn) => {
                    &&& spec_parsed_nan_wf(pn)
                    &&& self.state matches DecimalParserState::Nan(p) && pn.nan_buf == p.buf.buf
                },
            },
            r is Err ==> r->Err_0.kind == ParseErrorKind::End,
    {
        match self.state {
            DecimalParserState::Finite(f) => {
                match f.end() {
                    Ok(pf) => Ok(ParsedDecimal::Finite(pf)),
                    Err(e) => Err(e),
                }
            },
            DecimalParserState::Infinity(p) => match p.end() {
                Ok(pi) => Ok(ParsedDecimal::Infinity(pi)),
                Err(e) => Err(e),
            },
            DecimalParserState::Nan(p) => match p.end() {
                Ok(pn) => Ok(ParsedDecimal::Nan(pn)),
                Err(e) => Err(e),
            },
            DecimalParserState::AtStart { .. } => Err(
                ParseError::unexpected_end("a finite number, infinity, or NaN"),
            ),
        }
    }
}


} // verus!
