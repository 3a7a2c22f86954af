//! Canonical binary encoding of arbitrary-precision numbers: signs, unsigned
//! magnitudes, signed integers and decimals, each with exactly one valid encoding.
//! Every decoder reads from the front of a byte slice and hands back the bytes
//! that follow what it consumed.

pub mod decimal;
pub mod error;
pub mod magnitude;
pub mod sign;
pub mod signed;
pub mod varint;
pub mod zigzag;

use vstd::prelude::*;

verus! {

/// Appends `bytes` to `out`.
pub(crate) fn append_bytes(out: &mut Vec<u8>, bytes: &[u8])
    ensures
        final(out)@ == old(out)@ + bytes@,
{
    let mut i: usize = 0;
    while i < bytes.len()
        invariant
            i <= bytes@.len(),
            out@ == old(out)@ + bytes@.take(i as int),
        decreases bytes@.len() - i,
    {
        out.push(bytes[i]);
        i = i + 1;
        proof {
            assert(bytes@.take(i as int) =~= bytes@.take(i - 1) + seq![bytes@[i - 1]]);
        }
    }
    assert(bytes@.take(i as int) =~= bytes@);
}

} // verus!
