//! Bit fields: which pieces a peer has.
use bit_vec::BitVec;
use vstd::prelude::*;

verus! {

/// A vector of bits.
#[verifier::external_type_specification]
#[verifier::external_body]
#[verifier::reject_recursive_types(B)]
pub struct ExBitVec<B>(bit_vec::BitVec<B>);

/// The bits that a bit vector holds.
pub uninterp spec fn bits_of(v: BitVec) -> Seq<bool>;

/// Bit `i` of a byte, counted from the most significant one.
pub open spec fn bit_of_byte(byte: u8, i: int) -> bool {
    (byte >> ((7 - i) as u8)) & 1 == 1
}

/// The bits of a byte string, those of each byte from the most significant one on.
pub open spec fn byte_bits(bytes: Seq<u8>) -> Seq<bool> {
    Seq::new(8 * bytes.len(), |i: int| bit_of_byte(bytes[i / 8], i % 8))
}

/// `bits` filled up with zero bits to a whole number of bytes.
pub open spec fn padded(bits: Seq<bool>) -> Seq<bool> {
    Seq::new(8 * ((bits.len() + 7) / 8), |i: int| i < bits.len() && bits[i])
}

/// What a bit adds to a byte.
pub open spec fn weight(bit: bool, value: int) -> int {
    if bit {
        value
    } else {
        0
    }
}

/// The byte whose bits are `bits` from `at` on, the most significant one first.
pub open spec fn packed_byte(bits: Seq<bool>, at: int) -> u8 {
    (weight(bits[at], 128) + weight(bits[at + 1], 64) + weight(bits[at + 2], 32) + weight(
        bits[at + 3],
        16,
    ) + weight(bits[at + 4], 8) + weight(bits[at + 5], 4) + weight(bits[at + 6], 2) + weight(
        bits[at + 7],
        1,
    )) as u8
}

/// The bytes of a bit field, filled up with zero bits.
pub open spec fn packed(bits: Seq<bool>) -> Seq<u8> {
    Seq::new((bits.len() + 7) / 8, |i: int| packed_byte(padded(bits), 8 * i))
}

/// A byte string is determined by its bits.
pub proof fn lemma_packed(bytes: Seq<u8>, bits: Seq<bool>)
    requires
        byte_bits(bytes) == padded(bits),
    ensures
        bytes == packed(bits),
{
    assert(byte_bits(bytes).len() == 8 * bytes.len());
    assert(padded(bits).len() == 8 * ((bits.len() + 7) / 8));
    assert(packed(bits).len() == bytes.len());
    assert forall|i: int| 0 <= i < bytes.len() implies bytes[i] == packed(bits)[i] by {
        let b = bytes[i];
        let all = padded(bits);
        let (b0, b1, b2, b3) = ((b >> 7u8) & 1, (b >> 6u8) & 1, (b >> 5u8) & 1, (b >> 4u8) & 1);
        let (b4, b5, b6, b7) = ((b >> 3u8) & 1, (b >> 2u8) & 1, (b >> 1u8) & 1, (b >> 0u8) & 1);
        assert({
            &&& (b >> 7u8) & 1 <= 1 && (b >> 6u8) & 1 <= 1
            &&& (b >> 5u8) & 1 <= 1 && (b >> 4u8) & 1 <= 1
            &&& (b >> 3u8) & 1 <= 1 && (b >> 2u8) & 1 <= 1
            &&& (b >> 1u8) & 1 <= 1 && (b >> 0u8) & 1 <= 1
        }) by (bit_vector);
        assert(b == ((b >> 7u8) & 1) * 128 + ((b >> 6u8) & 1) * 64 + ((b >> 5u8) & 1) * 32 + ((b
            >> 4u8) & 1) * 16 + ((b >> 3u8) & 1) * 8 + ((b >> 2u8) & 1) * 4 + ((b >> 1u8) & 1) * 2
            + ((b >> 0u8) & 1)) by (bit_vector);
        assert forall|j: int| 0 <= j < 8 implies #[trigger] all[8 * i + j] == bit_of_byte(
            b,
            j,
        ) by {
            assert(byte_bits(bytes)[8 * i + j] == bit_of_byte(
                bytes[(8 * i + j) / 8],
                (8 * i + j) % 8,
            ));
        }
        assert(all[8 * i + 0] == (b0 == 1));
        assert(all[8 * i + 1] == (b1 == 1));
        assert(all[8 * i + 2] == (b2 == 1));
        assert(all[8 * i + 3] == (b3 == 1));
        assert(all[8 * i + 4] == (b4 == 1));
        assert(all[8 * i + 5] == (b5 == 1));
        assert(all[8 * i + 6] == (b6 == 1));
        assert(all[8 * i + 7] == (b7 == 1));
    }
    assert(bytes =~= packed(bits));
}

/// A bit field that is sent as bytes is received as it was, but for zero bits
/// at its end.
pub proof fn law_packed_bits_unpack(bits: Seq<bool>)
    ensures
        byte_bits(packed(bits)) == padded(bits),
        byte_bits(packed(bits)).take(bits.len() as int) == bits,
{
    let all = padded(bits);
    let bytes = packed(bits);
    assert(byte_bits(bytes).len() == all.len());
    assert forall|n: int| 0 <= n < all.len() implies byte_bits(bytes)[n] == all[n] by {
        let i = n / 8;
        let j = n % 8;
        let b = bytes[i];
        let b0: u8 = if all[8 * i] { 1 } else { 0 };
        let b1: u8 = if all[8 * i + 1] { 1 } else { 0 };
        let b2: u8 = if all[8 * i + 2] { 1 } else { 0 };
        let b3: u8 = if all[8 * i + 3] { 1 } else { 0 };
        let b4: u8 = if all[8 * i + 4] { 1 } else { 0 };
        let b5: u8 = if all[8 * i + 5] { 1 } else { 0 };
        let b6: u8 = if all[8 * i + 6] { 1 } else { 0 };
        let b7: u8 = if all[8 * i + 7] { 1 } else { 0 };
        assert({
            &&& (b >> 7u8) & 1 == b0 && (b >> 6u8) & 1 == b1
            &&& (b >> 5u8) & 1 == b2 && (b >> 4u8) & 1 == b3
            &&& (b >> 3u8) & 1 == b4 && (b >> 2u8) & 1 == b5
            &&& (b >> 1u8) & 1 == b6 && (b >> 0u8) & 1 == b7
        }) by (bit_vector)
            requires
                b == b0 * 128 + b1 * 64 + b2 * 32 + b3 * 16 + b4 * 8 + b5 * 4 + b6 * 2 + b7,
                b0 <= 1,
                b1 <= 1,
                b2 <= 1,
                b3 <= 1,
                b4 <= 1,
                b5 <= 1,
                b6 <= 1,
                b7 <= 1,
        ;
        assert(byte_bits(bytes)[n] == bit_of_byte(b, j));
        assert(n == 8 * i + j);
        assert(j == 0 || j == 1 || j == 2 || j == 3 || j == 4 || j == 5 || j == 6 || j == 7);
    }
    assert(byte_bits(bytes) =~= all);
    assert(all.take(bits.len() as int) =~= bits);
}

/// Calls `BitVec::default`, which makes an empty vector.
#[verifier::external_body]
pub(crate) fn no_bits() -> (v: BitVec)
    ensures
        bits_of(v) == Seq::<bool>::empty(),
{
    BitVec::default()
}

/// Calls `BitVec::from_elem`, which makes a vector of `count` equal bits.
#[verifier::external_body]
pub(crate) fn equal_bits(count: usize, bit: bool) -> (v: BitVec)
    ensures
        bits_of(v) == Seq::new(count as nat, |i: int| bit),
{
    BitVec::from_elem(count, bit)
}

/// Calls `BitVec::from_bytes`, which takes eight bits from each byte, the most
/// significant one first, and panics if their number exceeds `usize`.
#[verifier::external_body]
pub(crate) fn bits_from_bytes(bytes: &[u8]) -> (v: BitVec)
    requires
        8 * bytes@.len() <= usize::MAX,
    ensures
        bits_of(v) == byte_bits(bytes@),
{
    BitVec::from_bytes(bytes)
}

/// Calls `BitVec::to_bytes`, which packs eight bits into each byte, the most
/// significant one first, and fills the last byte up with zeros.
#[verifier::external_body]
pub(crate) fn bits_to_bytes(v: &BitVec) -> (bytes: Vec<u8>)
    ensures
        byte_bits(bytes@) == padded(bits_of(*v)),
{
    v.to_bytes()
}

/// Calls `BitVec::len`.
#[verifier::external_body]
pub(crate) fn bit_count(v: &BitVec) -> (count: usize)
    ensures
        count == bits_of(*v).len(),
{
    v.len()
}

/// Indexes a `BitVec`, which panics if there is no such bit.
#[verifier::external_body]
pub(crate) fn bit_at(v: &BitVec, i: usize) -> (bit: bool)
    requires
        i < bits_of(*v).len(),
    ensures
        bit == bits_of(*v)[i as int],
{
    v[i]
}

/// Calls `BitVec::set_all`, which sets every bit.
#[verifier::external_body]
pub(crate) fn set_all_bits(v: &mut BitVec)
    ensures
        bits_of(*final(v)) == Seq::new(bits_of(*old(v)).len(), |i: int| true),
{
    v.set_all()
}

} // verus!
