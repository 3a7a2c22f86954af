//! Why a decoder rejected its input.
use vstd::prelude::*;

verus! {

#[derive(Clone, Copy, Debug, PartialEq, Eq, Structural)]
pub enum DecodeError {
    /// The input ended before the value did.
    UnexpectedEof,
    /// A varint prefix was malformed: too long, padded with a zero byte, or
    /// otherwise not the canonical encoding of its value.
    InvalidVarint,
    /// A sign byte was not 0, 1 or 2.
    InvalidSignByte,
    /// The input was well formed but not the unique encoding of its value.
    NonCanonicalEncoding,
}

} // verus!
