//! The bit vector that collects what is sampled on TDO.

use bitvec::order::Lsb0;
use bitvec::vec::BitVec;
use bitvec::view::BitView;
use vstd::prelude::*;

verus! {

/// Sampled bits, oldest first, in a `BitVec<u8, Lsb0>` of the `bitvec` crate. The bit vector is
/// opaque here: its type parameters are bound by traits of its own crate.
#[verifier::external_body]
#[derive(Debug)]
pub struct CapturedBits {
    bits: BitVec<u8, Lsb0>,
}

/// What the bit vector holds, first bit first.
pub uninterp spec fn bits_of(captured: CapturedBits) -> Seq<bool>;

impl View for CapturedBits {
    type V = Seq<bool>;

    open spec fn view(&self) -> Seq<bool> {
        bits_of(*self)
    }
}

/// The most bits that a bit vector can hold.
pub open spec fn max_bits() -> int {
    usize::MAX as int / 8
}

/// The lowest `count` bits of a byte, the least significant one first.
pub open spec fn low_bits(byte: u8, count: int) -> Seq<bool> {
    Seq::new(count as nat, |i: int| crate::command_compacter::bit(byte, i))
}

/// `BitVec::new`: a bit vector that holds nothing.
#[verifier::external_body]
fn bitvec_new() -> (captured: CapturedBits)
    ensures
        bits_of(captured) == Seq::<bool>::empty(),
{
    CapturedBits { bits: BitVec::new() }
}

/// `BitVec::len`: the number of bits held. It never passes the limit of the bit vector.
#[verifier::external_body]
fn bitvec_len(captured: &CapturedBits) -> (len: usize)
    ensures
        len == bits_of(*captured).len(),
        len <= max_bits(),
{
    captured.bits.len()
}

/// `BitVec`'s indexing: the bit at a place within the length.
#[verifier::external_body]
fn bitvec_index(captured: &CapturedBits, index: usize) -> (value: bool)
    requires
        index < bits_of(*captured).len(),
    ensures
        value == bits_of(*captured)[index as int],
{
    captured.bits[index]
}

/// `BitVec::extend_from_bitslice` on the lowest `count` bits of a byte, as `BitView::view_bits`
/// shows them in `Lsb0` order: appends them, the least significant one first. The bit vector
/// panics where the new length passes its limit, and the view does where `count` passes 8.
#[verifier::external_body]
fn bitvec_extend_from_bitslice(captured: &mut CapturedBits, byte: u8, count: usize)
    requires
        count <= 8,
        bits_of(*old(captured)).len() + count <= max_bits(),
    ensures
        bits_of(*final(captured)) == bits_of(*old(captured)) + low_bits(byte, count as int),
{
    captured.bits.extend_from_bitslice(&byte.view_bits::<Lsb0>()[..count]);
}

impl CapturedBits {
    /// No bits.
    pub fn new() -> (captured: Self)
        ensures
            captured@ == Seq::<bool>::empty(),
    {
        bitvec_new()
    }

    /// The number of bits.
    pub fn len(&self) -> (len: usize)
        ensures
            len == self@.len(),
            len <= max_bits(),
    {
        bitvec_len(self)
    }

    /// The bits one by one, oldest first.
    pub fn to_vec(&self) -> (bits: Vec<bool>)
        ensures
            bits@ == self@,
    {
        let len = bitvec_len(self);
        let mut bits: Vec<bool> = Vec::new();
        for i in 0..len
            invariant
                len == self@.len(),
                bits@ == self@.take(i as int),
        {
            bits.push(bitvec_index(self, i));
            assert(bits@ =~= self@.take(i + 1));
        }
        assert(self@.take(len as int) =~= self@);
        bits
    }

    /// Appends the lowest `count` bits of a byte, the least significant one first.
    pub(crate) fn extend_from_byte(&mut self, byte: u8, count: usize)
        requires
            count <= 8,
            old(self)@.len() + count <= max_bits(),
        ensures
            final(self)@ == old(self)@ + low_bits(byte, count as int),
    {
        bitvec_extend_from_bitslice(self, byte, count);
    }
}

} // verus!
