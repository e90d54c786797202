use vstd::prelude::*;

verus! {

use crate::ident::MAX_IDENT_ENTRIES;

/// The visibility flags live in a `bitvec` bit-vector, one bit per
/// identifier-table entry. Verus refuses a direct declaration of
/// `bitvec::vec::BitVec` (its generic bounds name traits the verifier cannot
/// see), so the vector sits in this opaque holder; its contents are modelled
/// by [`bits_of`] and reached only through the trusted functions below.
#[verifier::external_body]
pub struct VisibilityBits {
    bits: bitvec::vec::BitVec,
}

/// The bits a [`VisibilityBits`] holds, first to last.
pub uninterp spec fn bits_of(v: VisibilityBits) -> Seq<bool>;

/// Relies on `BitVec::repeat`: a bit-vector of `len` copies of `bit`.
/// `repeat` only fails above the bit-vector's capacity limit, which
/// `MAX_IDENT_ENTRIES` stays far below.
#[verifier::external_body]
pub(crate) fn bits_repeat(bit: bool, len: usize) -> (r: VisibilityBits)
    requires
        len <= MAX_IDENT_ENTRIES,
    ensures
        bits_of(r) == Seq::new(len as nat, |i: int| bit),
{
    VisibilityBits { bits: bitvec::vec::BitVec::repeat(bit, len) }
}

/// Relies on `BitSlice::len`: the number of bits held.
#[verifier::external_body]
pub(crate) fn bits_len(v: &VisibilityBits) -> (n: usize)
    ensures
        n == bits_of(*v).len(),
{
    v.bits.len()
}

/// Relies on `BitSlice::set`, which writes one bit in place and panics only
/// out of bounds.
#[verifier::external_body]
pub(crate) fn bits_set(v: &mut VisibilityBits, index: usize, value: bool)
    requires
        index < bits_of(*old(v)).len(),
    ensures
        bits_of(*final(v)) == bits_of(*old(v)).update(index as int, value),
{
    v.bits.set(index, value);
}

/// Relies on `BitVec::push`, which appends one bit and panics only above the
/// bit-vector's capacity limit, far above `MAX_IDENT_ENTRIES`.
#[verifier::external_body]
pub(crate) fn bits_push(v: &mut VisibilityBits, value: bool)
    requires
        bits_of(*old(v)).len() < MAX_IDENT_ENTRIES,
    ensures
        bits_of(*final(v)) == bits_of(*old(v)).push(value),
{
    v.bits.push(value);
}

/// Relies on `BitSlice`'s `Index<usize>` impl, which returns the indexed bit
/// and panics only out of bounds.
#[verifier::external_body]
pub(crate) fn bits_get(v: &VisibilityBits, index: usize) -> (r: bool)
    requires
        index < bits_of(*v).len(),
    ensures
        r == bits_of(*v)[index as int],
{
    v.bits[index]
}

} // verus!
