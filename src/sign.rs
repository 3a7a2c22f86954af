//! The sign of a number, encoded as one byte.
use vstd::prelude::*;
use crate::error::DecodeError;

verus! {

#[derive(Clone, Copy, Debug, PartialEq, Eq, Structural)]
pub enum Sign {
    Negative,
    Zero,
    Positive,
}

/// The byte that encodes `s`.
pub open spec fn sign_byte(s: Sign) -> u8 {
    match s {
        Sign::Negative => 0,
        Sign::Zero => 1,
        Sign::Positive => 2,
    }
}

/// What the sign decoder yields on `buf`: the sign and the bytes after it.
pub open spec fn sign_decoding(buf: Seq<u8>) -> Result<(Sign, Seq<u8>), DecodeError> {
    if buf.len() == 0 {
        Err(DecodeError::UnexpectedEof)
    } else if buf[0] == 0 {
        Ok((Sign::Negative, buf.drop_first()))
    } else if buf[0] == 1 {
        Ok((Sign::Zero, buf.drop_first()))
    } else if buf[0] == 2 {
        Ok((Sign::Positive, buf.drop_first()))
    } else {
        Err(DecodeError::InvalidSignByte)
    }
}

impl Sign {
    /// Appends the byte that encodes this sign to `out`.
    pub fn serialize(&self, out: &mut Vec<u8>)
        ensures
            final(out)@ == old(out)@.push(sign_byte(*self)),
    {
        match self {
            Sign::Negative => out.push(0u8),
            Sign::Zero => out.push(1u8),
            Sign::Positive => out.push(2u8),
        }
    }

    /// Reads a sign from the front of `buf`; returns it with the bytes that follow.
    pub fn deserialize(buf: &[u8]) -> (r: Result<(Sign, &[u8]), DecodeError>)
        ensures
            r is Ok <==> sign_decoding(buf@) is Ok,
            r is Ok ==> r->Ok_0.0 == sign_decoding(buf@)->Ok_0.0
                && r->Ok_0.1@ == sign_decoding(buf@)->Ok_0.1,
            r is Err ==> r->Err_0 == sign_decoding(buf@)->Err_0,
    {
        if buf.is_empty() {
            return Err(DecodeError::UnexpectedEof);
        }
        let sign_flag: u8 = buf[0];
        let (_, rest) = buf.split_at(1);
        proof {
            assert(rest@ =~= buf@.drop_first());
        }
        match sign_flag {
            0 => Ok((Sign::Negative, rest)),
            1 => Ok((Sign::Zero, rest)),
            2 => Ok((Sign::Positive, rest)),
            _ => Err(DecodeError::InvalidSignByte),
        }
    }
}

/// Decoding the byte of a sign, followed by any bytes, yields that sign and
/// those bytes.
pub proof fn lemma_sign_round_trip(s: Sign, rest: Seq<u8>)
    ensures
        sign_decoding(seq![sign_byte(s)] + rest) == Ok::<(Sign, Seq<u8>), DecodeError>((s, rest)),
{
    assert((seq![sign_byte(s)] + rest).drop_first() =~= rest);
}

} // verus!
