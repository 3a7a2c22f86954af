//! Unsigned varints (LEB128), the self-delimiting integers that prefix lengths
//! and carry decimal exponents. The codec itself is `unsigned_varint`'s; this
//! module states what it does, reads on top of it only canonical varints, and
//! proves the facts the other codecs need.
use vstd::prelude::*;
use crate::error::DecodeError;

verus! {

/// The varint bytes of `n`: seven bits per byte, least significant group first,
/// the high bit set on every byte but the last.
pub open spec fn varint_bytes(n: nat) -> Seq<u8>
    decreases n,
{
    if n < 128 {
        seq![n as u8]
    } else {
        seq![(n % 128 + 128) as u8] + varint_bytes(n / 128)
    }
}

/// What a varint reader yields at the front of `s`, when it may read `budget`
/// more bytes after the first one: the value of the groups read and how many
/// bytes they took. A final zero byte after the first one pads the encoding and
/// is refused; so is a continuation past the budget.
pub open spec fn varint_scan(s: Seq<u8>, first: bool, budget: nat) -> Result<(nat, nat), DecodeError>
    decreases s.len(),
{
    if s.len() == 0 {
        Err(DecodeError::UnexpectedEof)
    } else if s[0] < 128 {
        if s[0] == 0 && !first {
            Err(DecodeError::InvalidVarint)
        } else {
            Ok((s[0] as nat, 1))
        }
    } else if budget == 0 {
        Err(DecodeError::InvalidVarint)
    } else {
        match varint_scan(s.drop_first(), false, (budget - 1) as nat) {
            Ok((v, n)) => Ok((((s[0] - 128) + 128 * v) as nat, n + 1)),
            Err(e) => Err(e),
        }
    }
}

/// What the 32-bit varint reader yields on `s`: at most five bytes, the value
/// taken modulo 2^32.
pub open spec fn varint_u32_decoding(s: Seq<u8>) -> Result<(nat, nat), DecodeError> {
    match varint_scan(s, true, 4) {
        Ok((v, n)) => Ok((v % 0x1_0000_0000, n)),
        Err(e) => Err(e),
    }
}

/// What the 64-bit varint reader yields on `s`: at most ten bytes, the value
/// taken modulo 2^64.
pub open spec fn varint_u64_decoding(s: Seq<u8>) -> Result<(nat, nat), DecodeError> {
    match varint_scan(s, true, 9) {
        Ok((v, n)) => Ok((v % 0x1_0000_0000_0000_0000, n)),
        Err(e) => Err(e),
    }
}

/// Relies on unsigned_varint::encode::u32 for the varint bytes of `n`.
#[verifier::external_body]
pub(crate) fn encode_u32(n: u32) -> (r: Vec<u8>)
    ensures
        r@ == varint_bytes(n as nat),
{
    unsigned_varint::encode::u32(n, &mut unsigned_varint::encode::u32_buffer()).to_vec()
}

/// Relies on unsigned_varint::encode::u64 for the varint bytes of `n`.
#[verifier::external_body]
pub(crate) fn encode_u64(n: u64) -> (r: Vec<u8>)
    ensures
        r@ == varint_bytes(n as nat),
{
    unsigned_varint::encode::u64(n, &mut unsigned_varint::encode::u64_buffer()).to_vec()
}

/// Relies on unsigned_varint::decode::u32 to read a varint at the front of
/// `buf`: its `Insufficient` error is an early end of input, its other errors
/// (`Overflow`, `NotMinimal`) a malformed varint.
#[verifier::external_body]
pub(crate) fn decode_u32(buf: &[u8]) -> (r: Result<(u32, &[u8]), DecodeError>)
    ensures
        match varint_u32_decoding(buf@) {
            Ok((v, n)) => r is Ok && r->Ok_0.0 == v && r->Ok_0.1@ == buf@.skip(n as int),
            Err(e) => r == Err::<(u32, &[u8]), DecodeError>(e),
        },
{
    match unsigned_varint::decode::u32(buf) {
        Ok((v, rest)) => Ok((v, rest)),
        Err(unsigned_varint::decode::Error::Insufficient) => Err(DecodeError::UnexpectedEof),
        Err(_) => Err(DecodeError::InvalidVarint),
    }
}

/// Relies on unsigned_varint::decode::u64 to read a varint at the front of
/// `buf`, with its errors told apart as for `decode_u32`.
#[verifier::external_body]
pub(crate) fn decode_u64(buf: &[u8]) -> (r: Result<(u64, &[u8]), DecodeError>)
    ensures
        match varint_u64_decoding(buf@) {
            Ok((v, n)) => r is Ok && r->Ok_0.0 == v && r->Ok_0.1@ == buf@.skip(n as int),
            Err(e) => r == Err::<(u64, &[u8]), DecodeError>(e),
        },
{
    match unsigned_varint::decode::u64(buf) {
        Ok((v, rest)) => Ok((v, rest)),
        Err(unsigned_varint::decode::Error::Insufficient) => Err(DecodeError::UnexpectedEof),
        Err(_) => Err(DecodeError::InvalidVarint),
    }
}

/// What the canonical 32-bit varint reader yields on `s`: the reader's result,
/// refused unless the bytes it read are exactly the varint bytes of the value.
pub open spec fn canonical_u32_decoding(s: Seq<u8>) -> Result<(nat, nat), DecodeError> {
    match varint_u32_decoding(s) {
        Ok((v, n)) => if s.take(n as int) == varint_bytes(v) {
            Ok((v, n))
        } else {
            Err(DecodeError::InvalidVarint)
        },
        Err(e) => Err(e),
    }
}

/// What the canonical 64-bit varint reader yields on `s`: the reader's result,
/// refused unless the bytes it read are exactly the varint bytes of the value.
pub open spec fn canonical_u64_decoding(s: Seq<u8>) -> Result<(nat, nat), DecodeError> {
    match varint_u64_decoding(s) {
        Ok((v, n)) => if s.take(n as int) == varint_bytes(v) {
            Ok((v, n))
        } else {
            Err(DecodeError::InvalidVarint)
        },
        Err(e) => Err(e),
    }
}

/// Whether `a` and `b` hold the same bytes.
fn bytes_eq(a: &[u8], b: &[u8]) -> (r: bool)
    ensures
        r == (a@ == b@),
{
    if a.len() != b.len() {
        return false;
    }
    let mut i: usize = 0;
    while i < a.len()
        invariant
            a@.len() == b@.len(),
            i <= a@.len(),
            forall|j: int| 0 <= j < i ==> a@[j] == b@[j],
        decreases a@.len() - i,
    {
        if a[i] != b[i] {
            return false;
        }
        i = i + 1;
    }
    assert(a@ =~= b@);
    true
}

/// Reads a 32-bit varint at the front of `buf` and returns it with the bytes
/// that follow; any encoding but the canonical one is refused.
pub(crate) fn read_canonical_u32(buf: &[u8]) -> (r: Result<(u32, &[u8]), DecodeError>)
    ensures
        match canonical_u32_decoding(buf@) {
            Ok((v, n)) => r is Ok && r->Ok_0.0 == v && r->Ok_0.1@ == buf@.skip(n as int),
            Err(e) => r == Err::<(u32, &[u8]), DecodeError>(e),
        },
{
    let (v, rem) = match decode_u32(buf) {
        Ok(p) => p,
        Err(e) => return Err(e),
    };
    proof {
        lemma_varint_scan_len(buf@, true, 4);
    }
    let consumed = buf.len() - rem.len();
    let (read, _) = buf.split_at(consumed);
    let expected = encode_u32(v);
    if !bytes_eq(read, expected.as_slice()) {
        return Err(DecodeError::InvalidVarint);
    }
    Ok((v, rem))
}

/// Reads a 64-bit varint at the front of `buf` and returns it with the bytes
/// that follow; any encoding but the canonical one is refused.
pub(crate) fn read_canonical_u64(buf: &[u8]) -> (r: Result<(u64, &[u8]), DecodeError>)
    ensures
        match canonical_u64_decoding(buf@) {
            Ok((v, n)) => r is Ok && r->Ok_0.0 == v && r->Ok_0.1@ == buf@.skip(n as int),
            Err(e) => r == Err::<(u64, &[u8]), DecodeError>(e),
        },
{
    let (v, rem) = match decode_u64(buf) {
        Ok(p) => p,
        Err(e) => return Err(e),
    };
    proof {
        lemma_varint_scan_len(buf@, true, 9);
    }
    let consumed = buf.len() - rem.len();
    let (read, _) = buf.split_at(consumed);
    let expected = encode_u64(v);
    if !bytes_eq(read, expected.as_slice()) {
        return Err(DecodeError::InvalidVarint);
    }
    Ok((v, rem))
}

/// A varint that is read takes at least one byte and no more than there are.
pub proof fn lemma_varint_scan_len(s: Seq<u8>, first: bool, budget: nat)
    ensures
        varint_scan(s, first, budget) is Ok ==> 1 <= varint_scan(s, first, budget)->Ok_0.1
            <= s.len(),
    decreases s.len(),
{
    if s.len() > 0 && s[0] >= 128 && budget > 0 {
        lemma_varint_scan_len(s.drop_first(), false, (budget - 1) as nat);
    }
}

/// `128^k`.
pub open spec fn pow128(k: nat) -> nat
    decreases k,
{
    if k == 0 {
        1
    } else {
        128 * pow128((k - 1) as nat)
    }
}

/// A value below `128^k` takes at most `k` varint bytes, and at least one.
pub proof fn lemma_varint_len(n: nat, k: nat)
    requires
        k >= 1,
        n < pow128(k),
    ensures
        1 <= varint_bytes(n).len() <= k,
    decreases n,
{
    if n >= 128 {
        assert(k >= 2) by {
            if k == 1 {
                reveal_with_fuel(pow128, 2);
            }
        }
        assert(n / 128 < pow128((k - 1) as nat));
        lemma_varint_len(n / 128, (k - 1) as nat);
    }
}

/// Values of 32 bits take at most five varint bytes; values of 64 bits at most ten.
pub proof fn lemma_varint_len_fixed(n: nat)
    ensures
        n < 0x1_0000_0000 ==> varint_bytes(n).len() <= 5,
        n < 0x1_0000_0000_0000_0000 ==> varint_bytes(n).len() <= 10,
{
    reveal_with_fuel(pow128, 11);
    assert(pow128(5) == 0x8_0000_0000);
    assert(pow128(10) == 0x40_0000_0000_0000_0000);
    if n < 0x1_0000_0000 {
        lemma_varint_len(n, 5);
    }
    if n < 0x1_0000_0000_0000_0000 {
        lemma_varint_len(n, 10);
    }
}

/// A larger value never takes fewer varint bytes.
pub proof fn lemma_varint_len_monotone(a: nat, b: nat)
    requires
        a <= b,
    ensures
        varint_bytes(a).len() <= varint_bytes(b).len(),
    decreases b,
{
    if a >= 128 {
        lemma_varint_len_monotone(a / 128, b / 128);
    }
}

/// Reading the varint bytes of `n`, followed by any bytes, yields `n` and the
/// number of bytes that encode it.
pub proof fn lemma_varint_scan_encoded(n: nat, rest: Seq<u8>, first: bool, budget: nat)
    requires
        varint_bytes(n).len() <= budget + 1,
        first || n > 0,
    ensures
        varint_scan(varint_bytes(n) + rest, first, budget) == Ok::<(nat, nat), DecodeError>(
            (n, varint_bytes(n).len()),
        ),
    decreases n,
{
    let s = varint_bytes(n) + rest;
    if n >= 128 {
        assert(s.drop_first() =~= varint_bytes(n / 128) + rest);
        lemma_varint_scan_encoded(n / 128, rest, false, (budget - 1) as nat);
    }
}

/// Reading the varint bytes of a 32-bit value, followed by any bytes, yields it.
pub proof fn lemma_varint_u32_round_trip(n: u32, rest: Seq<u8>)
    ensures
        canonical_u32_decoding(varint_bytes(n as nat) + rest) == Ok::<(nat, nat), DecodeError>(
            (n as nat, varint_bytes(n as nat).len()),
        ),
{
    lemma_varint_len_fixed(n as nat);
    lemma_varint_scan_encoded(n as nat, rest, true, 4);
    assert((varint_bytes(n as nat) + rest).take(varint_bytes(n as nat).len() as int)
        =~= varint_bytes(n as nat));
}

/// Reading the varint bytes of a 64-bit value, followed by any bytes, yields it.
pub proof fn lemma_varint_u64_round_trip(n: u64, rest: Seq<u8>)
    ensures
        canonical_u64_decoding(varint_bytes(n as nat) + rest) == Ok::<(nat, nat), DecodeError>(
            (n as nat, varint_bytes(n as nat).len()),
        ),
{
    lemma_varint_len_fixed(n as nat);
    lemma_varint_scan_encoded(n as nat, rest, true, 9);
    assert((varint_bytes(n as nat) + rest).take(varint_bytes(n as nat).len() as int)
        =~= varint_bytes(n as nat));
}

/// A canonical read consumed exactly the varint bytes of the value it yields.
pub proof fn lemma_canonical_read_exact(s: Seq<u8>)
    ensures
        canonical_u32_decoding(s) is Ok ==> s == varint_bytes(canonical_u32_decoding(s)->Ok_0.0)
            + s.skip(canonical_u32_decoding(s)->Ok_0.1 as int),
        canonical_u32_decoding(s) is Ok ==> canonical_u32_decoding(s)->Ok_0.0 <= u32::MAX,
        canonical_u64_decoding(s) is Ok ==> s == varint_bytes(canonical_u64_decoding(s)->Ok_0.0)
            + s.skip(canonical_u64_decoding(s)->Ok_0.1 as int),
        canonical_u64_decoding(s) is Ok ==> canonical_u64_decoding(s)->Ok_0.0 <= u64::MAX,
{
    lemma_varint_scan_len(s, true, 4);
    lemma_varint_scan_len(s, true, 9);
    if canonical_u32_decoding(s) is Ok {
        let n = canonical_u32_decoding(s)->Ok_0.1;
        assert(s =~= s.take(n as int) + s.skip(n as int));
    }
    if canonical_u64_decoding(s) is Ok {
        let n = canonical_u64_decoding(s)->Ok_0.1;
        assert(s =~= s.take(n as int) + s.skip(n as int));
    }
}

} // verus!
