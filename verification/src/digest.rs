//! The digest of a sketch: one header byte, then the lowest bit of each value
//! of the sketch, eight to a byte.

use bit_vec::BitVec;
use vstd::prelude::*;

verus! {

/// The header byte of a data identifier.
pub const HEAD_DID: u8 = 0x20;

#[verifier::external_type_specification]
#[verifier::external_body]
#[verifier::reject_recursive_types(B)]
pub struct ExBitVec<B>(BitVec<B>);

/// The bits that a bit vector holds, first to last.
pub uninterp spec fn bits_of(bv: BitVec) -> Seq<bool>;

/// The bit at position `i`, as a number; zero past the end.
pub open spec fn bit_value(bits: Seq<bool>, i: int) -> int {
    if 0 <= i < bits.len() && bits[i] {
        1
    } else {
        0
    }
}

/// The byte made of the eight bits from position `8 * j` on, the first of them
/// as its highest bit; bits past the end count as unset.
pub open spec fn packed_byte(bits: Seq<bool>, j: int) -> u8 {
    (128 * bit_value(bits, 8 * j) + 64 * bit_value(bits, 8 * j + 1) + 32 * bit_value(
        bits,
        8 * j + 2,
    ) + 16 * bit_value(bits, 8 * j + 3) + 8 * bit_value(bits, 8 * j + 4) + 4 * bit_value(
        bits,
        8 * j + 5,
    ) + 2 * bit_value(bits, 8 * j + 6) + bit_value(bits, 8 * j + 7)) as u8
}

/// The bits packed into bytes, eight to a byte, the last byte filled up with
/// unset bits.
pub open spec fn pack_bits(bits: Seq<bool>) -> Seq<u8> {
    Seq::new(((bits.len() + 7) / 8) as nat, |j: int| packed_byte(bits, j))
}

/// Whether each value is odd.
pub open spec fn lsb_bits(values: Seq<u32>) -> Seq<bool> {
    Seq::new(values.len(), |i: int| values[i] & 1 == 1)
}

/// The digest of a sketch.
pub open spec fn digest_of(sketch: Seq<u32>) -> Seq<u8> {
    seq![HEAD_DID] + pack_bits(lsb_bits(sketch))
}

/// Calls `BitVec::new`, which makes a bit vector that holds no bit.
#[verifier::external_body]
fn bitvec_new() -> (bv: BitVec)
    ensures
        bits_of(bv) == Seq::<bool>::empty(),
{
    BitVec::new()
}

/// Calls `BitVec::push`, which adds one bit behind the others. It panics where
/// the count of bits would no longer fit a `usize`, which the precondition
/// rules out.
#[verifier::external_body]
fn bitvec_push(bv: &mut BitVec, bit: bool)
    requires
        bits_of(*old(bv)).len() < usize::MAX,
    ensures
        bits_of(*final(bv)) == bits_of(*old(bv)).push(bit),
{
    bv.push(bit)
}

/// Calls `BitVec::to_bytes`, which packs the bits into bytes: the first bit
/// becomes the highest bit of the first byte, and where the count of bits is no
/// multiple of eight the last byte is filled up with unset bits.
#[verifier::external_body]
fn bitvec_to_bytes(bv: &BitVec) -> (bytes: Vec<u8>)
    ensures
        bytes@ == pack_bits(bits_of(*bv)),
{
    bv.to_bytes()
}

/// Packs a sketch into its digest: the header byte, then the lowest bits of
/// the values in order, eight to a byte.
pub fn data_id_digest(sketch: &[u32]) -> (digest: Vec<u8>)
    ensures
        digest@ == digest_of(sketch@),
{
    let mut lsb = bitvec_new();
    let mut i: usize = 0;
    while i < sketch.len()
        invariant
            i <= sketch.len(),
            bits_of(lsb) == lsb_bits(sketch@).take(i as int),
        decreases sketch.len() - i,
    {
        bitvec_push(&mut lsb, (sketch[i] & 1) == 1);
        proof {
            assert(lsb_bits(sketch@).take(i as int).push(sketch[i as int] & 1 == 1) =~= lsb_bits(
                sketch@,
            ).take(i + 1));
        }
        i += 1;
    }
    let mut lsb_bytes = bitvec_to_bytes(&lsb);
    let mut digest: Vec<u8> = Vec::new();
    digest.push(HEAD_DID);
    digest.append(&mut lsb_bytes);
    digest
}

} // verus!
