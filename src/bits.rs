//! A fixed bit array of `bitvec`, seen as a sequence of booleans.
use vstd::prelude::*;

verus! {

/// Number of bits in a [`Bits`] value.
pub const BITS_LEN: usize = 136;

/// The bit array that the escape search runs on: `bitvec`'s array over
/// seventeen bytes, least significant bit first. Verus cannot declare
/// `BitArray` itself (its bounds name `bitvec`'s traits), so it is held here.
#[verifier::external_body]
pub struct Bits {
    array: bitvec::array::BitArray<[u8; 17], bitvec::order::Lsb0>,
}

/// The bits that a [`Bits`] value holds, by index.
pub uninterp spec fn bits_of(b: Bits) -> Seq<bool>;

/// Relies on `bitvec`'s `BitArray::new`: the array over seventeen `0xFF` bytes
/// has all of its bits set.
#[verifier::external_body]
pub(crate) fn bits_all_set() -> (r: Bits)
    ensures
        bits_of(r) == Seq::new(BITS_LEN as nat, |i: int| true),
{
    Bits { array: bitvec::array::BitArray::new([0xFFu8; 17]) }
}

/// Relies on `bitvec`'s `BitSlice::set`: writes one bit and leaves the others;
/// it panics on an index out of bounds.
#[verifier::external_body]
pub(crate) fn bits_clear(b: &mut Bits, index: usize)
    requires
        index < BITS_LEN,
    ensures
        bits_of(*final(b)) == bits_of(*old(b)).update(index as int, false),
{
    b.array.set(index, false)
}

/// Relies on `bitvec`'s `Index<usize>` for `BitSlice`: reads one bit; it
/// panics on an index out of bounds.
#[verifier::external_body]
pub(crate) fn bits_test(b: &Bits, index: usize) -> (r: bool)
    requires
        index < BITS_LEN,
    ensures
        r == bits_of(*b)[index as int],
{
    b.array.as_bitslice()[index]
}

} // verus!
