//! Signed integers: a sign byte, then the magnitude unless the sign is zero.
use vstd::prelude::*;
use crate::error::DecodeError;
use crate::magnitude::{
    is_canonical, lemma_magnitude_decode_exact, lemma_magnitude_round_trip, magnitude_decoding, magnitude_encoding,
    trim, Magnitude,
};
use crate::sign::{lemma_sign_round_trip, sign_byte, sign_decoding, Sign};

verus! {

/// A signed integer as a sign and a magnitude.
#[derive(Debug)]
pub struct SignedInteger {
    pub sign: Sign,
    pub magnitude: Magnitude,
}

/// The sign is `Zero` exactly when the digits `d` stand for zero.
pub open spec fn signed_wf(sign: Sign, d: Seq<u8>) -> bool {
    (sign == Sign::Zero) == (trim(d).len() == 0)
}

/// The encoding of the signed integer with sign `sign` and digits `d`.
pub open spec fn signed_encoding(sign: Sign, d: Seq<u8>) -> Seq<u8> {
    if sign == Sign::Zero {
        seq![sign_byte(sign)]
    } else {
        seq![sign_byte(sign)] + magnitude_encoding(d)
    }
}

/// What the signed-integer decoder yields on `s`: the sign, the digits and the
/// bytes after them.
pub open spec fn signed_decoding(s: Seq<u8>) -> Result<(Sign, Seq<u8>, Seq<u8>), DecodeError> {
    match sign_decoding(s) {
        Err(e) => Err(e),
        Ok((sign, rest)) => {
            if sign == Sign::Zero {
                Ok((sign, Seq::empty(), rest))
            } else {
                match magnitude_decoding(rest) {
                    Err(e) => Err(e),
                    Ok((d, after)) => {
                        if d.len() == 0 {
                            Err(DecodeError::NonCanonicalEncoding)
                        } else {
                            Ok((sign, d, after))
                        }
                    },
                }
            }
        },
    }
}

impl SignedInteger {
    /// The sign agrees with the magnitude: `Zero` exactly for the value zero.
    pub open spec fn wf(&self) -> bool {
        signed_wf(self.sign, self.magnitude@)
    }

    /// Appends the encoding of this integer to `out`.
    pub fn serialize(&self, out: &mut Vec<u8>)
        requires
            self.wf(),
            trim(self.magnitude@).len() <= u32::MAX,
        ensures
            final(out)@ == old(out)@ + signed_encoding(self.sign, self.magnitude@),
    {
        self.sign.serialize(out);
        if self.sign != Sign::Zero {
            self.magnitude.serialize(out);
            assert(final(out)@ =~= old(out)@ + signed_encoding(self.sign, self.magnitude@));
        }
    }

    /// Reads a signed integer from the front of `buf`; returns it with the
    /// bytes that follow.
    pub fn deserialize(buf: &[u8]) -> (r: Result<(SignedInteger, &[u8]), DecodeError>)
        ensures
            r is Ok <==> signed_decoding(buf@) is Ok,
            r is Ok ==> r->Ok_0.0.sign == signed_decoding(buf@)->Ok_0.0
                && r->Ok_0.0.magnitude@ == signed_decoding(buf@)->Ok_0.1
                && r->Ok_0.1@ == signed_decoding(buf@)->Ok_0.2,
            r is Err ==> r->Err_0 == signed_decoding(buf@)->Err_0,
    {
        let (sign, rest) = match Sign::deserialize(buf) {
            Ok(p) => p,
            Err(e) => return Err(e),
        };
        if sign == Sign::Zero {
            return Ok((SignedInteger { sign, magnitude: Magnitude { digits: Vec::new() } }, rest));
        }
        let (uint, after) = match Magnitude::deserialize(rest) {
            Ok(p) => p,
            Err(e) => return Err(e),
        };
        if uint.digits.len() == 0 {
            return Err(DecodeError::NonCanonicalEncoding);
        }
        Ok((SignedInteger { sign, magnitude: uint }, after))
    }
}

/// Decoding the encoding of a well-formed signed integer, followed by any
/// bytes, yields its sign, its canonical digits and those bytes.
pub proof fn lemma_signed_round_trip(sign: Sign, d: Seq<u8>, rest: Seq<u8>)
    requires
        signed_wf(sign, d),
        trim(d).len() <= u32::MAX,
    ensures
        signed_decoding(signed_encoding(sign, d) + rest) == Ok::<
            (Sign, Seq<u8>, Seq<u8>),
            DecodeError,
        >((sign, trim(d), rest)),
{
    if sign == Sign::Zero {
        lemma_sign_round_trip(sign, rest);
        assert(trim(d) =~= Seq::<u8>::empty());
    } else {
        let m = magnitude_encoding(d) + rest;
        assert(signed_encoding(sign, d) + rest =~= seq![sign_byte(sign)] + m);
        lemma_sign_round_trip(sign, m);
        lemma_magnitude_round_trip(d, rest);
    }
}

/// A zero sign byte ends the integer, whatever follows it; a non-zero sign
/// followed by the empty magnitude is refused as non-canonical.
pub proof fn lemma_zero_sign_coupling(rest: Seq<u8>)
    ensures
        signed_decoding(seq![1u8] + rest) == Ok::<(Sign, Seq<u8>, Seq<u8>), DecodeError>(
            (Sign::Zero, Seq::empty(), rest),
        ),
        signed_decoding(seq![0u8, 0u8] + rest) == Err::<(Sign, Seq<u8>, Seq<u8>), DecodeError>(
            DecodeError::NonCanonicalEncoding,
        ),
        signed_decoding(seq![2u8, 0u8] + rest) == Err::<(Sign, Seq<u8>, Seq<u8>), DecodeError>(
            DecodeError::NonCanonicalEncoding,
        ),
{
    lemma_sign_round_trip(Sign::Zero, rest);
    lemma_sign_round_trip(Sign::Negative, seq![0u8] + rest);
    lemma_sign_round_trip(Sign::Positive, seq![0u8] + rest);
    assert(seq![0u8, 0u8] + rest =~= seq![0u8] + (seq![0u8] + rest));
    assert(seq![2u8, 0u8] + rest =~= seq![2u8] + (seq![0u8] + rest));
    lemma_magnitude_round_trip(Seq::empty(), rest);
    assert(magnitude_encoding(Seq::empty()) =~= seq![0u8]);
}

/// A first byte other than 0, 1 or 2 is refused as a sign byte.
pub proof fn lemma_invalid_sign_byte(b: u8, rest: Seq<u8>)
    requires
        b > 2,
    ensures
        sign_decoding(seq![b] + rest) == Err::<(Sign, Seq<u8>), DecodeError>(
            DecodeError::InvalidSignByte,
        ),
        signed_decoding(seq![b] + rest) == Err::<(Sign, Seq<u8>, Seq<u8>), DecodeError>(
            DecodeError::InvalidSignByte,
        ),
{
}

/// A successful decode yields a well-formed integer with canonical digits and
/// consumed exactly its encoding: no other byte sequence decodes to it.
pub proof fn lemma_signed_decode_exact(s: Seq<u8>)
    ensures
        signed_decoding(s) is Ok ==> {
            let (sign, d, rest) = signed_decoding(s)->Ok_0;
            &&& signed_wf(sign, d)
            &&& is_canonical(d)
            &&& d.len() <= u32::MAX
            &&& s == signed_encoding(sign, d) + rest
        },
{
    if signed_decoding(s) is Ok {
        let (sign, rest1) = sign_decoding(s)->Ok_0;
        assert(s =~= seq![sign_byte(sign)] + rest1);
        if sign == Sign::Zero {
            assert(trim(Seq::<u8>::empty()) == Seq::<u8>::empty());
        } else {
            lemma_magnitude_decode_exact(rest1);
            let (d, rest) = magnitude_decoding(rest1)->Ok_0;
            assert(trim(d) == d);
            assert(s =~= signed_encoding(sign, d) + rest);
        }
    }
}

} // verus!
