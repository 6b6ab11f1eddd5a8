/*!
An IEEE 754-2019 compatible decimal interchange format.

This library converts decimal floating-point numbers between a human-readable
text form (`-123.456e-7`, `inf`, `snan(42)`), an IEEE 754 decimal interchange
bitstring using densely-packed-decimal encoding in little-endian byte order,
and native binary integers.

The bit-level codec preserves the exact digits and exponent it is given:
`1.00`, `1.0` and `1` encode to distinct bitstrings.
*/

pub mod bits;
pub mod bitstring;
pub mod buf;
pub mod combination;
pub mod convert;
pub mod error;
pub mod exponent;
pub mod fixed128;
pub mod fixed32;
pub mod fixed64;
pub mod messages;
pub mod num;
pub mod significand;
pub mod text;

pub use bitstring::Bitstring;
pub use buf::BinaryBuf;
pub use error::{ConvertError, Error, ErrorKind, OverflowError, ParseError, ParseErrorKind};
pub use fixed128::Bitstring128;
pub use fixed32::Bitstring32;
pub use fixed64::Bitstring64;
