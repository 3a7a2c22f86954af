//! Decimals: an unscaled signed integer, then the exponent as the varint of
//! its zigzag image.
use vstd::prelude::*;
use crate::append_bytes;
use crate::error::DecodeError;
use crate::magnitude::{is_canonical, trim};
use crate::sign::Sign;
use crate::signed::{
    lemma_signed_decode_exact, lemma_signed_round_trip, signed_decoding, signed_encoding, signed_wf,
    SignedInteger,
};
use crate::varint::{
    canonical_u64_decoding, encode_u64, lemma_canonical_read_exact, lemma_varint_u64_round_trip,
    read_canonical_u64, varint_bytes,
};
use crate::zigzag::{
    lemma_zigzag_bijective, unzigzag, zig_zag_decode_i64, zig_zag_encode_i64, zigzag,
};

verus! {

/// The number `unscaled * 10^(-exponent)`.
#[derive(Debug)]
pub struct Decimal {
    pub unscaled: SignedInteger,
    pub exponent: i64,
}

/// The encoding of the decimal with unscaled sign `sign`, digits `d` and
/// exponent `exp`.
pub open spec fn decimal_encoding(sign: Sign, d: Seq<u8>, exp: int) -> Seq<u8> {
    signed_encoding(sign, d) + varint_bytes(zigzag(exp) as nat)
}

/// What the decimal decoder yields on `s`: the unscaled sign and digits, the
/// exponent, and the bytes after them.
pub open spec fn decimal_decoding(s: Seq<u8>) -> Result<(Sign, Seq<u8>, int, Seq<u8>), DecodeError> {
    match signed_decoding(s) {
        Err(e) => Err(e),
        Ok((sign, d, rest)) => match canonical_u64_decoding(rest) {
            Err(e) => Err(e),
            Ok((u, n)) => Ok((sign, d, unzigzag(u as int), rest.skip(n as int))),
        },
    }
}

impl Decimal {
    /// Appends the encoding of this decimal to `out`.
    pub fn serialize(&self, out: &mut Vec<u8>)
        requires
            self.unscaled.wf(),
            trim(self.unscaled.magnitude@).len() <= u32::MAX,
        ensures
            final(out)@ == old(out)@ + decimal_encoding(
                self.unscaled.sign,
                self.unscaled.magnitude@,
                self.exponent as int,
            ),
    {
        self.unscaled.serialize(out);
        let bytes = encode_u64(zig_zag_encode_i64(self.exponent));
        append_bytes(out, bytes.as_slice());
        assert(final(out)@ =~= old(out)@ + decimal_encoding(
            self.unscaled.sign,
            self.unscaled.magnitude@,
            self.exponent as int,
        ));
    }

    /// Reads a decimal from the front of `buf`; returns it with the bytes that
    /// follow.
    pub fn deserialize(buf: &[u8]) -> (r: Result<(Decimal, &[u8]), DecodeError>)
        ensures
            r is Ok <==> decimal_decoding(buf@) is Ok,
            r is Ok ==> r->Ok_0.0.unscaled.sign == decimal_decoding(buf@)->Ok_0.0
                && r->Ok_0.0.unscaled.magnitude@ == decimal_decoding(buf@)->Ok_0.1
                && r->Ok_0.0.exponent == decimal_decoding(buf@)->Ok_0.2
                && r->Ok_0.1@ == decimal_decoding(buf@)->Ok_0.3,
            r is Err ==> r->Err_0 == decimal_decoding(buf@)->Err_0,
    {
        let (digits, rest) = match SignedInteger::deserialize(buf) {
            Ok(p) => p,
            Err(e) => return Err(e),
        };
        let (val, rem) = match read_canonical_u64(rest) {
            Ok(p) => p,
            Err(e) => return Err(e),
        };
        let exponent = zig_zag_decode_i64(val);
        Ok((Decimal { unscaled: digits, exponent }, rem))
    }
}

/// Decoding the encoding of a decimal with a well-formed unscaled integer,
/// followed by any bytes, yields its sign, its canonical digits, its exponent
/// and those bytes.
pub proof fn lemma_decimal_round_trip(sign: Sign, d: Seq<u8>, exp: i64, rest: Seq<u8>)
    requires
        signed_wf(sign, d),
        trim(d).len() <= u32::MAX,
    ensures
        decimal_decoding(decimal_encoding(sign, d, exp as int) + rest) == Ok::<
            (Sign, Seq<u8>, int, Seq<u8>),
            DecodeError,
        >((sign, trim(d), exp as int, rest)),
{
    lemma_zigzag_bijective(exp, 0);
    let u = zigzag(exp as int) as u64;
    let tail = varint_bytes(u as nat) + rest;
    assert(decimal_encoding(sign, d, exp as int) + rest =~= signed_encoding(sign, d) + tail);
    lemma_signed_round_trip(sign, d, tail);
    lemma_varint_u64_round_trip(u, rest);
    assert(tail.skip(varint_bytes(u as nat).len() as int) =~= rest);
}

/// A successful decode yields a well-formed unscaled integer with canonical
/// digits and a 64-bit exponent, and consumed exactly their encoding: no other
/// byte sequence decodes to the same decimal.
pub proof fn lemma_decimal_decode_exact(s: Seq<u8>)
    ensures
        decimal_decoding(s) is Ok ==> {
            let (sign, d, exp, rest) = decimal_decoding(s)->Ok_0;
            &&& signed_wf(sign, d)
            &&& is_canonical(d)
            &&& d.len() <= u32::MAX
            &&& i64::MIN <= exp <= i64::MAX
            &&& s == decimal_encoding(sign, d, exp) + rest
        },
{
    if decimal_decoding(s) is Ok {
        lemma_signed_decode_exact(s);
        let (sign, d, rest1) = signed_decoding(s)->Ok_0;
        lemma_canonical_read_exact(rest1);
        let (u, n) = canonical_u64_decoding(rest1)->Ok_0;
        lemma_zigzag_bijective(0, u as u64);
        assert(s =~= decimal_encoding(sign, d, unzigzag(u as int)) + rest1.skip(n as int));
    }
}

} // verus!
