//! Unsigned magnitudes of any length: a varint length, then the little-endian
//! digit bytes with no trailing zero byte.
use vstd::prelude::*;
use vstd::slice::slice_to_vec;
use crate::append_bytes;
use crate::error::DecodeError;
use crate::varint::{
    canonical_u32_decoding, encode_u32, lemma_canonical_read_exact, lemma_varint_u32_round_trip,
    read_canonical_u32, varint_bytes,
};

verus! {

/// An unsigned integer as its little-endian digit bytes. Trailing zero bytes
/// are allowed here and are dropped when it is encoded; decoded magnitudes have
/// none.
#[derive(Debug)]
pub struct Magnitude {
    pub digits: Vec<u8>,
}

impl View for Magnitude {
    type V = Seq<u8>;

    open spec fn view(&self) -> Seq<u8> {
        self.digits@
    }
}

/// The number that the little-endian digits `d` stand for.
pub open spec fn le_value(d: Seq<u8>) -> nat
    decreases d.len(),
{
    if d.len() == 0 {
        0
    } else {
        (d[0] + 256 * le_value(d.drop_first())) as nat
    }
}

/// `d` without its trailing zero bytes.
pub open spec fn trim(d: Seq<u8>) -> Seq<u8>
    decreases d.len(),
{
    if d.len() > 0 && d.last() == 0 {
        trim(d.drop_last())
    } else {
        d
    }
}

/// The digits have no trailing zero byte: zero is the empty sequence.
pub open spec fn is_canonical(d: Seq<u8>) -> bool {
    d.len() == 0 || d.last() != 0
}

/// The encoding of the magnitude with digits `d`.
pub open spec fn magnitude_encoding(d: Seq<u8>) -> Seq<u8> {
    varint_bytes(trim(d).len()) + trim(d)
}

/// What the magnitude decoder yields on `s`: the digits and the bytes after them.
pub open spec fn magnitude_decoding(s: Seq<u8>) -> Result<(Seq<u8>, Seq<u8>), DecodeError> {
    match canonical_u32_decoding(s) {
        Err(e) => Err(e),
        Ok((len, n)) => {
            let rest = s.skip(n as int);
            if rest.len() < len {
                Err(DecodeError::UnexpectedEof)
            } else if len > 0 && rest[len - 1] == 0 {
                Err(DecodeError::NonCanonicalEncoding)
            } else {
                Ok((rest.take(len as int), rest.skip(len as int)))
            }
        },
    }
}

impl Magnitude {
    /// Appends the encoding of this magnitude to `out`.
    pub fn serialize(&self, out: &mut Vec<u8>)
        requires
            trim(self@).len() <= u32::MAX,
        ensures
            final(out)@ == old(out)@ + magnitude_encoding(self@),
    {
        let data = &self.digits;
        let mut end: usize = data.len();
        assert(data@.take(end as int) =~= data@);
        while end > 0 && data[end - 1] == 0
            invariant
                end <= data@.len(),
                trim(data@.take(end as int)) == trim(data@),
            decreases end,
        {
            proof {
                assert(data@.take(end - 1) =~= data@.take(end as int).drop_last());
            }
            end = end - 1;
        }
        let ghost kept = data@.take(end as int);
        assert(trim(kept) == kept);
        if end == 0 {
            out.push(0u8);
            assert(magnitude_encoding(self@) =~= seq![0u8]);
        } else {
            let (bytes, _) = data.as_slice().split_at(end);
            let encoded_len = encode_u32(end as u32);
            append_bytes(out, encoded_len.as_slice());
            append_bytes(out, bytes);
            assert(final(out)@ =~= old(out)@ + magnitude_encoding(self@));
        }
    }

    /// Reads a magnitude from the front of `buf`; returns it with the bytes
    /// that follow.
    pub fn deserialize(buf: &[u8]) -> (r: Result<(Magnitude, &[u8]), DecodeError>)
        ensures
            r is Ok <==> magnitude_decoding(buf@) is Ok,
            r is Ok ==> r->Ok_0.0@ == magnitude_decoding(buf@)->Ok_0.0
                && r->Ok_0.1@ == magnitude_decoding(buf@)->Ok_0.1,
            r is Err ==> r->Err_0 == magnitude_decoding(buf@)->Err_0,
    {
        let (val, rem) = match read_canonical_u32(buf) {
            Ok(p) => p,
            Err(e) => return Err(e),
        };
        let len = val as usize;
        if rem.len() < len {
            return Err(DecodeError::UnexpectedEof);
        }
        let (digits, new_buf) = rem.split_at(len);
        if len > 0 && digits[len - 1] == 0 {
            return Err(DecodeError::NonCanonicalEncoding);
        }
        Ok((Magnitude { digits: slice_to_vec(digits) }, new_buf))
    }
}

/// Trimming leaves no trailing zero byte.
pub proof fn lemma_trim_canonical(d: Seq<u8>)
    ensures
        is_canonical(trim(d)),
        trim(d).len() <= d.len(),
    decreases d.len(),
{
    if d.len() > 0 && d.last() == 0 {
        lemma_trim_canonical(d.drop_last());
    }
}

/// Decoding the encoding of a magnitude, followed by any bytes, yields its
/// canonical digits and those bytes.
pub proof fn lemma_magnitude_round_trip(d: Seq<u8>, rest: Seq<u8>)
    requires
        trim(d).len() <= u32::MAX,
    ensures
        magnitude_decoding(magnitude_encoding(d) + rest) == Ok::<
            (Seq<u8>, Seq<u8>),
            DecodeError,
        >((trim(d), rest)),
{
    let t = trim(d);
    lemma_trim_canonical(d);
    let s = magnitude_encoding(d) + rest;
    assert(s =~= varint_bytes(t.len()) + (t + rest));
    lemma_varint_u32_round_trip(t.len() as u32, t + rest);
    assert(s.skip(varint_bytes(t.len()).len() as int) =~= t + rest);
    assert((t + rest).take(t.len() as int) =~= t);
    assert((t + rest).skip(t.len() as int) =~= rest);
}

/// A magnitude whose digits end in a zero byte, under a length that counts
/// that byte, is refused as non-canonical, although the digits without it
/// decode to the same number.
pub proof fn lemma_padded_rejected(d: Seq<u8>, rest: Seq<u8>)
    requires
        is_canonical(d),
        d.len() < u32::MAX,
    ensures
        magnitude_decoding(varint_bytes(d.len() + 1) + d.push(0u8) + rest)
            == Err::<(Seq<u8>, Seq<u8>), DecodeError>(DecodeError::NonCanonicalEncoding),
{
    let p = d.push(0u8);
    assert(varint_bytes(d.len() + 1) + p + rest =~= varint_bytes(p.len()) + (p + rest));
    lemma_varint_u32_round_trip(p.len() as u32, p + rest);
    assert((varint_bytes(p.len()) + (p + rest)).skip(varint_bytes(p.len()).len() as int)
        =~= p + rest);
}

/// Dropping a trailing zero byte keeps the number.
proof fn lemma_drop_zero_value(d: Seq<u8>)
    requires
        d.len() > 0,
        d.last() == 0,
    ensures
        le_value(d.drop_last()) == le_value(d),
    decreases d.len(),
{
    if d.len() > 1 {
        assert(d.drop_last().drop_first() =~= d.drop_first().drop_last());
        lemma_drop_zero_value(d.drop_first());
        assert(d.drop_last()[0] == d[0]);
    } else {
        assert(le_value(d.drop_first()) == 0);
        assert(le_value(d.drop_last()) == 0);
    }
}

/// Trimming keeps the number.
pub proof fn lemma_trim_value(d: Seq<u8>)
    ensures
        le_value(trim(d)) == le_value(d),
    decreases d.len(),
{
    if d.len() > 0 && d.last() == 0 {
        lemma_drop_zero_value(d);
        lemma_trim_value(d.drop_last());
    }
}

/// Canonical digits that are not empty stand for a number above zero.
proof fn lemma_canonical_positive(d: Seq<u8>)
    requires
        is_canonical(d),
        d.len() > 0,
    ensures
        le_value(d) > 0,
    decreases d.len(),
{
    if d.len() > 1 {
        lemma_canonical_positive(d.drop_first());
    }
}

/// Each number has one canonical digit sequence.
pub proof fn lemma_canonical_unique(a: Seq<u8>, b: Seq<u8>)
    requires
        is_canonical(a),
        is_canonical(b),
        le_value(a) == le_value(b),
    ensures
        a == b,
    decreases a.len(),
{
    if a.len() == 0 {
        if b.len() > 0 {
            lemma_canonical_positive(b);
        }
        assert(a =~= b);
    } else if b.len() == 0 {
        lemma_canonical_positive(a);
    } else {
        let x = le_value(a.drop_first());
        let y = le_value(b.drop_first());
        let a0 = a[0] as int;
        let b0 = b[0] as int;
        assert(a0 == b0 && x == y) by (nonlinear_arith)
            requires
                0 <= a0 < 256,
                0 <= b0 < 256,
                a0 + 256 * x == b0 + 256 * y,
        {
        }
        lemma_canonical_unique(a.drop_first(), b.drop_first());
        assert(a =~= seq![a[0]] + a.drop_first());
        assert(b =~= seq![b[0]] + b.drop_first());
    }
}

/// Two magnitudes have the same encoding exactly when they stand for the same
/// number.
pub proof fn lemma_encoding_determined_by_value(a: Seq<u8>, b: Seq<u8>)
    requires
        trim(a).len() <= u32::MAX,
        trim(b).len() <= u32::MAX,
    ensures
        (magnitude_encoding(a) == magnitude_encoding(b)) <==> (le_value(a) == le_value(b)),
{
    lemma_trim_value(a);
    lemma_trim_value(b);
    lemma_trim_canonical(a);
    lemma_trim_canonical(b);
    if le_value(a) == le_value(b) {
        lemma_canonical_unique(trim(a), trim(b));
    }
    if magnitude_encoding(a) == magnitude_encoding(b) {
        lemma_magnitude_round_trip(a, Seq::empty());
        lemma_magnitude_round_trip(b, Seq::empty());
    }
}

/// A successful decode yields canonical digits and consumed exactly their
/// encoding: no other byte sequence decodes to the same magnitude.
pub proof fn lemma_magnitude_decode_exact(s: Seq<u8>)
    ensures
        magnitude_decoding(s) is Ok ==> {
            let (d, rest) = magnitude_decoding(s)->Ok_0;
            &&& is_canonical(d)
            &&& d.len() <= u32::MAX
            &&& s == magnitude_encoding(d) + rest
        },
{
    lemma_canonical_read_exact(s);
    if magnitude_decoding(s) is Ok {
        let (len, n) = canonical_u32_decoding(s)->Ok_0;
        let after = s.skip(n as int);
        let d = after.take(len as int);
        assert(d.len() == len);
        assert(trim(d) == d);
        assert(s =~= varint_bytes(len) + d + after.skip(len as int));
    }
}

} // verus!
