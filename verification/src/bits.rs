//! Trusted boundary around the packed bit store of the `fixedbitset` crate.
//!
//! The store is opaque to the verifier; `bits_of` names the sequence of bits
//! it holds, and each wrapper states over that name what the crate's own
//! source shows of the method it calls. Everything else in the library is
//! proved from these contracts.

use vstd::prelude::*;

verus! {

/// The bits that a `FixedBitSet` holds: one `bool` per bit of its capacity,
/// in index order.
pub uninterp spec fn bits_of(s: fixedbitset::FixedBitSet) -> Seq<bool>;

#[verifier::external_type_specification]
#[verifier::external_body]
pub struct ExFixedBitSet(fixedbitset::FixedBitSet);

/// Relies on `fixedbitset::FixedBitSet::with_capacity`: a store of `nbits`
/// bits, all initially clear.
#[verifier::external_body]
pub(crate) fn bitset_with_capacity(nbits: usize) -> (r: fixedbitset::FixedBitSet)
    ensures
        bits_of(r) == Seq::new(nbits as nat, |i: int| false),
{
    fixedbitset::FixedBitSet::with_capacity(nbits)
}

/// Relies on `fixedbitset::FixedBitSet::contains`: whether the bit at `bit`
/// is enabled.
#[verifier::external_body]
pub(crate) fn bitset_contains(s: &fixedbitset::FixedBitSet, bit: usize) -> (r: bool)
    requires
        bit < bits_of(*s).len(),
    ensures
        r == bits_of(*s)[bit as int],
{
    s.contains(bit)
}

/// Relies on `fixedbitset::FixedBitSet::set`: writes `enabled` at `bit` and
/// leaves every other bit as it was; it panics out of bounds, so the bound is
/// required here.
#[verifier::external_body]
pub(crate) fn bitset_set(s: &mut fixedbitset::FixedBitSet, bit: usize, enabled: bool)
    requires
        bit < bits_of(*old(s)).len(),
    ensures
        bits_of(*final(s)) == bits_of(*old(s)).update(bit as int, enabled),
{
    s.set(bit, enabled)
}

/// Relies on `fixedbitset::FixedBitSet::toggle`: inverts the bit at `bit` and
/// leaves every other bit as it was; it panics out of bounds, so the bound is
/// required here.
#[verifier::external_body]
pub(crate) fn bitset_toggle(s: &mut fixedbitset::FixedBitSet, bit: usize)
    requires
        bit < bits_of(*old(s)).len(),
    ensures
        bits_of(*final(s)) == bits_of(*old(s)).update(
            bit as int,
            !bits_of(*old(s))[bit as int],
        ),
{
    s.toggle(bit)
}

/// Relies on `fixedbitset::FixedBitSet::clear`: disables every bit and keeps
/// the capacity.
#[verifier::external_body]
pub(crate) fn bitset_clear(s: &mut fixedbitset::FixedBitSet)
    ensures
        bits_of(*final(s)) == Seq::new(bits_of(*old(s)).len(), |i: int| false),
{
    s.clear()
}

/// Relies on the `Clone` impl of `fixedbitset::FixedBitSet`: the copy holds
/// the same bits.
#[verifier::external_body]
pub(crate) fn bitset_clone(s: &fixedbitset::FixedBitSet) -> (r: fixedbitset::FixedBitSet)
    ensures
        bits_of(r) == bits_of(*s),
{
    s.clone()
}

/// Relies on `fixedbitset::FixedBitSet::as_slice`: the store's `u32` blocks,
/// 32 bits per block, least significant bit first.
#[verifier::external_body]
pub(crate) fn bitset_as_slice(s: &fixedbitset::FixedBitSet) -> (r: &[u32])
    ensures
        r@.len() == (bits_of(*s).len() + 31) / 32,
        forall|i: int|
            0 <= i < bits_of(*s).len() ==> bits_of(*s)[i] == ((r@[i / 32] >> ((i % 32) as u32))
                & 1u32 == 1u32),
{
    s.as_slice()
}

} // verus!
