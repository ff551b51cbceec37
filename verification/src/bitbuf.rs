//! Bits packed into bytes, the most significant bit first.

use bitvec::order::Msb0;
use bitvec::vec::BitVec;
use vstd::prelude::*;

verus! {

/// A growing sequence of bits.
///
/// The bits are held by a `bitvec::vec::BitVec<u8, Msb0>`, which Verus
/// cannot look into. A buffer is only ever made empty and appended to, so its
/// first bit is the most significant bit of its first byte, and the bits of
/// its last byte behind its end are the zeros that `BitVec` fills new bytes
/// with.
#[verifier::external_body]
#[derive(Debug)]
pub struct BitBuffer {
    bits: BitVec<u8, Msb0>,
}

/// The bits that a buffer holds.
pub uninterp spec fn buffer_bits(buffer: BitBuffer) -> Seq<bool>;

/// The largest number of bits that a buffer can hold: an eighth of the
/// largest index of the machine.
pub open spec fn max_bits() -> int {
    usize::MAX as int / 8
}

/// Calls `BitVec::new`: the new buffer holds no bits.
#[verifier::external_body]
pub(crate) fn bit_buffer_new() -> (buffer: BitBuffer)
    ensures
        buffer_bits(buffer) == Seq::<bool>::empty(),
{
    BitBuffer { bits: BitVec::new() }
}

/// Calls `BitVec::len`: the number of bits in the buffer.
#[verifier::external_body]
pub(crate) fn bit_buffer_len(buffer: &BitBuffer) -> (n: usize)
    ensures
        n == buffer_bits(*buffer).len(),
{
    buffer.bits.len()
}

/// Calls `BitVec::extend` with the items of a list: the bits are appended in
/// their order. `BitVec` panics where the new length is above its limit,
/// so the caller has to stay below it.
#[verifier::external_body]
pub(crate) fn bit_buffer_extend(buffer: &mut BitBuffer, bits: &Vec<bool>)
    requires
        buffer_bits(*old(buffer)).len() + bits@.len() <= max_bits(),
    ensures
        buffer_bits(*final(buffer)) == buffer_bits(*old(buffer)) + bits@,
{
    buffer.bits.extend(bits.iter().copied())
}

/// Calls `BitVec::as_raw_slice`: the bytes that hold the bits, eight to a
/// byte and the first bit in the most significant place; the last byte is
/// filled up with zeros.
#[verifier::external_body]
pub(crate) fn bit_buffer_as_raw_slice(buffer: &BitBuffer) -> (bytes: &[u8])
    ensures
        bytes@ == pack_bits(buffer_bits(*buffer)),
{
    buffer.bits.as_raw_slice()
}

/// The bit at index `i`; outside the sequence it is not set.
pub open spec fn bit_at(bits: Seq<bool>, i: int) -> bool {
    0 <= i < bits.len() && bits[i]
}

/// The byte in which only the bit in place `bit` may be set, where place 0
/// is the most significant one.
pub open spec fn bit_mask(set: bool, bit: u8) -> u8 {
    if set {
        0x80u8 >> bit
    } else {
        0
    }
}

/// The first `count` bits of byte `index` of the packed bits; the other bits
/// of the byte are zero.
pub open spec fn partial_byte(bits: Seq<bool>, index: int, count: nat) -> u8
    decreases count,
{
    if count == 0 {
        0
    } else {
        partial_byte(bits, index, (count - 1) as nat) | bit_mask(
            bit_at(bits, 8 * index + count - 1),
            (count - 1) as u8,
        )
    }
}

/// The bits packed into bytes: eight to a byte, the first bit in the most
/// significant place, and the last byte filled up with zeros.
pub open spec fn pack_bits(bits: Seq<bool>) -> Seq<u8> {
    Seq::new(((bits.len() + 7) / 8) as nat, |index: int| partial_byte(bits, index, 8))
}

/// A byte in which only one bit may be set.
proof fn lemma_masks(b: bool, bit: u8)
    requires
        bit < 8,
    ensures
        bit_mask(b, bit) == 0 || bit_mask(b, bit) == 0x80u8 >> bit,
        (bit_mask(b, bit) != 0) == b,
{
    assert(0x80u8 >> bit != 0) by (bit_vector)
        requires
            bit < 8,
    ;
}

/// Each place of a packed byte holds the bit that was packed into it.
pub proof fn lemma_packed_byte(bits: Seq<bool>, index: int, bit: u8)
    requires
        bit < 8,
    ensures
        (partial_byte(bits, index, 8) & (0x80u8 >> bit) != 0) == bit_at(bits, 8 * index + bit),
{
    reveal_with_fuel(partial_byte, 9);
    let m0 = bit_mask(bit_at(bits, 8 * index), 0);
    let m1 = bit_mask(bit_at(bits, 8 * index + 1), 1);
    let m2 = bit_mask(bit_at(bits, 8 * index + 2), 2);
    let m3 = bit_mask(bit_at(bits, 8 * index + 3), 3);
    let m4 = bit_mask(bit_at(bits, 8 * index + 4), 4);
    let m5 = bit_mask(bit_at(bits, 8 * index + 5), 5);
    let m6 = bit_mask(bit_at(bits, 8 * index + 6), 6);
    let m7 = bit_mask(bit_at(bits, 8 * index + 7), 7);
    lemma_masks(bit_at(bits, 8 * index), 0);
    lemma_masks(bit_at(bits, 8 * index + 1), 1);
    lemma_masks(bit_at(bits, 8 * index + 2), 2);
    lemma_masks(bit_at(bits, 8 * index + 3), 3);
    lemma_masks(bit_at(bits, 8 * index + 4), 4);
    lemma_masks(bit_at(bits, 8 * index + 5), 5);
    lemma_masks(bit_at(bits, 8 * index + 6), 6);
    lemma_masks(bit_at(bits, 8 * index + 7), 7);
    let byte = partial_byte(bits, index, 8);
    assert(byte == 0u8 | m0 | m1 | m2 | m3 | m4 | m5 | m6 | m7);
    assert(((0u8 | m0 | m1 | m2 | m3 | m4 | m5 | m6 | m7) & (0x80u8 >> bit) != 0) == (if bit == 0 {
        m0 != 0
    } else if bit == 1 {
        m1 != 0
    } else if bit == 2 {
        m2 != 0
    } else if bit == 3 {
        m3 != 0
    } else if bit == 4 {
        m4 != 0
    } else if bit == 5 {
        m5 != 0
    } else if bit == 6 {
        m6 != 0
    } else {
        m7 != 0
    })) by (bit_vector)
        requires
            bit < 8,
            m0 == 0 || m0 == 0x80u8 >> 0u8,
            m1 == 0 || m1 == 0x80u8 >> 1u8,
            m2 == 0 || m2 == 0x80u8 >> 2u8,
            m3 == 0 || m3 == 0x80u8 >> 3u8,
            m4 == 0 || m4 == 0x80u8 >> 4u8,
            m5 == 0 || m5 == 0x80u8 >> 5u8,
            m6 == 0 || m6 == 0x80u8 >> 6u8,
            m7 == 0 || m7 == 0x80u8 >> 7u8,
    ;
}

/// Reading bit `i` of the packed bytes gives bit `i` of the bits; behind
/// their end it gives zero.
pub proof fn lemma_packed_bit(bits: Seq<bool>, i: int)
    requires
        0 <= i < 8 * pack_bits(bits).len(),
    ensures
        (pack_bits(bits)[i / 8] & (0x80u8 >> ((i % 8) as u8)) != 0) == bit_at(bits, i),
{
    lemma_packed_byte(bits, i / 8, (i % 8) as u8);
}

/// Bit `i` of the bytes, where the first bit of a byte is its most
/// significant one; behind the end of the bytes no bit is set.
pub open spec fn packed_bit(bytes: Seq<u8>, i: int) -> bool {
    0 <= i < 8 * bytes.len() && bytes[i / 8] & (0x80u8 >> ((i % 8) as u8)) != 0
}

/// Reading a bit of packed bits gives the bit that was packed.
pub proof fn lemma_read_packed_bit(bits: Seq<bool>, i: int)
    requires
        0 <= i,
    ensures
        packed_bit(pack_bits(bits), i) == bit_at(bits, i),
{
    if i < 8 * pack_bits(bits).len() {
        lemma_packed_bit(bits, i);
    }
}

/// Reads one bit from bytes, where the first bit of a byte is its most
/// significant one.
pub fn read_bit(bytes: &[u8], i: usize) -> (b: bool)
    ensures
        b == packed_bit(bytes@, i as int),
{
    if i / 8 >= bytes.len() {
        return false;
    }
    bytes[i / 8] & (0x80u8 >> ((i % 8) as u8)) != 0
}

/// Packs bits into bytes, the first bit in the most significant place.
pub fn bits_to_bytes(bits: &[bool]) -> (bytes: Vec<u8>)
    ensures
        bytes@ == pack_bits(bits@),
{
    let n: usize = bits.len();
    let count: usize = n / 8 + (if n % 8 != 0 {
        1usize
    } else {
        0usize
    });
    let mut bytes: Vec<u8> = Vec::new();
    let mut index: usize = 0;
    while index < count
        invariant
            index <= count,
            n == bits@.len(),
            count == (n + 7) / 8,
            bytes@.len() == index,
            forall|j: int| 0 <= j < index ==> bytes@[j] == partial_byte(bits@, j, 8),
        decreases count - index,
    {
        let mut byte: u8 = 0;
        let mut k: u8 = 0;
        while k < 8
            invariant
                k <= 8,
                index < count,
                n == bits@.len(),
                count == (n + 7) / 8,
                byte == partial_byte(bits@, index as int, k as nat),
            decreases 8 - k,
        {
            let position: usize = 8 * index + k as usize;
            if position < n && bits[position] {
                byte = byte | (0x80u8 >> k);
            } else {
                assert(byte | 0u8 == byte) by (bit_vector);
            }
            k += 1;
        }
        bytes.push(byte);
        index += 1;
    }
    assert(bytes@ =~= pack_bits(bits@));
    bytes
}

} // verus!
