//! Conversion between bytes and the bit stream that is written into an image.
use vstd::prelude::*;

verus! {

/// Bit `i` of `b`, counting from the least significant bit.
pub open spec fn bit_of(b: u8, i: u8) -> bool {
    (b >> i) & 1u8 == 1u8
}

/// The bit stream of a payload: bit `i` of byte `k` stands at `8 * k + i`.
pub open spec fn packed(payload: Seq<u8>) -> Seq<bool> {
    Seq::new(8 * payload.len(), |j: int| bit_of(payload[j / 8], (j % 8) as u8))
}

/// The byte whose bit `i` is `bits[start + i]`, for `i` in `0..8`.
pub open spec fn byte_at(bits: Seq<bool>, start: int) -> u8 {
    (if bits[start] { 1u8 } else { 0u8 }) | (if bits[start + 1] { 2u8 } else { 0u8 }) | (if bits[
        start + 2] { 4u8 } else { 0u8 }) | (if bits[start + 3] { 8u8 } else { 0u8 }) | (if bits[
        start + 4] { 16u8 } else { 0u8 }) | (if bits[start + 5] { 32u8 } else { 0u8 }) | (if bits[
        start + 6] { 64u8 } else { 0u8 }) | (if bits[start + 7] { 128u8 } else { 0u8 })
}

/// The `count` bytes that a bit stream of `8 * count` bits stands for.
pub open spec fn unpacked(bits: Seq<bool>, count: nat) -> Seq<u8> {
    Seq::new(count, |k: int| byte_at(bits, 8 * k))
}

/// The bit stream handed to `unpack` does not have eight bits for each byte asked for.
#[derive(Debug, Clone, Copy, PartialEq, Eq)]
pub struct DecodeError {
    pub bits: usize,
    pub bytes: usize,
}

/// The bit stream of `payload`, least significant bit of each byte first.
pub fn pack(payload: &[u8]) -> (r: Vec<bool>)
    requires
        8 * payload@.len() <= usize::MAX,
    ensures
        r@ == packed(payload@),
{
    let mut r: Vec<bool> = Vec::new();
    let mut k: usize = 0;
    while k < payload.len()
        invariant
            k <= payload@.len(),
            8 * payload@.len() <= usize::MAX,
            r@.len() == 8 * k,
            forall|j: int| 0 <= j < r@.len() ==> r@[j] == bit_of(payload@[j / 8], (j % 8) as u8),
        decreases payload@.len() - k,
    {
        let b = payload[k];
        let mut i: u8 = 0;
        while i < 8
            invariant
                k < payload@.len(),
                b == payload@[k as int],
                i <= 8,
                r@.len() == 8 * k + i,
                forall|j: int|
                    0 <= j < r@.len() ==> r@[j] == bit_of(payload@[j / 8], (j % 8) as u8),
            decreases 8 - i,
        {
            r.push((b >> i) & 1u8 == 1u8);
            i = i + 1;
        }
        k = k + 1;
    }
    assert(r@ =~= packed(payload@));
    r
}

/// The byte made of the eight bits that start at `start`.
fn byte_from(bits: &Vec<bool>, start: usize) -> (r: u8)
    requires
        start + 8 <= bits@.len(),
    ensures
        r == byte_at(bits@, start as int),
{
    let _len = bits.len();
    (if bits[start] { 1u8 } else { 0u8 }) | (if bits[start + 1] { 2u8 } else { 0u8 }) | (if bits[
        start + 2] { 4u8 } else { 0u8 }) | (if bits[start + 3] { 8u8 } else { 0u8 }) | (if bits[
        start + 4] { 16u8 } else { 0u8 }) | (if bits[start + 5] { 32u8 } else { 0u8 }) | (if bits[
        start + 6] { 64u8 } else { 0u8 }) | (if bits[start + 7] { 128u8 } else { 0u8 })
}

/// The `count` bytes that `bits` stands for; fails unless there are exactly
/// eight bits for each byte.
pub fn unpack(bits: &Vec<bool>, count: usize) -> (r: Result<Vec<u8>, DecodeError>)
    ensures
        bits@.len() == 8 * count <==> r is Ok,
        r matches Ok(v) ==> v@ == unpacked(bits@, count as nat),
        r matches Err(e) ==> e == (DecodeError { bits: bits@.len() as usize, bytes: count }),
{
    if count > bits.len() / 8 || bits.len() != 8 * count {
        return Err(DecodeError { bits: bits.len(), bytes: count });
    }
    let mut r: Vec<u8> = Vec::new();
    let mut k: usize = 0;
    while k < count
        invariant
            k <= count,
            bits@.len() == 8 * count,
            bits@.len() <= usize::MAX,
            r@ == unpacked(bits@, k as nat),
        decreases count - k,
    {
        assert(8 * k < 8 * count) by (nonlinear_arith)
            requires
                k < count,
        ;
        let b = byte_from(bits, 8 * k);
        r.push(b);
        k = k + 1;
        assert(r@ =~= unpacked(bits@, k as nat));
    }
    Ok(r)
}

/// A byte is the byte made of its own eight bits.
proof fn lemma_byte_bits(b: u8)
    ensures
        b == (if bit_of(b, 0) { 1u8 } else { 0u8 }) | (if bit_of(b, 1) { 2u8 } else { 0u8 }) | (if bit_of(
            b,
            2,
        ) { 4u8 } else { 0u8 }) | (if bit_of(b, 3) { 8u8 } else { 0u8 }) | (if bit_of(b, 4) {
            16u8
        } else { 0u8 }) | (if bit_of(b, 5) { 32u8 } else { 0u8 }) | (if bit_of(b, 6) {
            64u8
        } else { 0u8 }) | (if bit_of(b, 7) { 128u8 } else { 0u8 }),
{
    assert(b == (if (b >> 0u8) & 1u8 == 1u8 { 1u8 } else { 0u8 }) | (if (b >> 1u8) & 1u8 == 1u8 {
        2u8
    } else { 0u8 }) | (if (b >> 2u8) & 1u8 == 1u8 { 4u8 } else { 0u8 }) | (if (b >> 3u8) & 1u8
        == 1u8 { 8u8 } else { 0u8 }) | (if (b >> 4u8) & 1u8 == 1u8 { 16u8 } else { 0u8 }) | (if (b
        >> 5u8) & 1u8 == 1u8 { 32u8 } else { 0u8 }) | (if (b >> 6u8) & 1u8 == 1u8 {
        64u8
    } else { 0u8 }) | (if (b >> 7u8) & 1u8 == 1u8 { 128u8 } else { 0u8 })) by (bit_vector);
}

/// Unpacking the bit stream of a payload gives the payload back.
pub proof fn lemma_pack_unpack(payload: Seq<u8>)
    ensures
        unpacked(packed(payload), payload.len()) == payload,
{
    let bits = packed(payload);
    assert forall|k: int| 0 <= k < payload.len() implies #[trigger] byte_at(bits, 8 * k)
        == payload[k] by {
        lemma_byte_bits(payload[k]);
        assert(bits[8 * k] == bit_of(payload[k], 0));
        assert(bits[8 * k + 1] == bit_of(payload[k], 1));
        assert(bits[8 * k + 2] == bit_of(payload[k], 2));
        assert(bits[8 * k + 3] == bit_of(payload[k], 3));
        assert(bits[8 * k + 4] == bit_of(payload[k], 4));
        assert(bits[8 * k + 5] == bit_of(payload[k], 5));
        assert(bits[8 * k + 6] == bit_of(payload[k], 6));
        assert(bits[8 * k + 7] == bit_of(payload[k], 7));
    }
    assert(unpacked(bits, payload.len()) =~= payload);
}

} // verus!
