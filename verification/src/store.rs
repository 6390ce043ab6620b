//! Bit store: a fixed-length array of bits, held in `bit_vec::BitVec` and
//! modelled as a `Seq<bool>`.
//!
//! The filter owns one store, sized once at construction; bits only ever
//! move from unset to set.

use vstd::prelude::*;

verus! {

#[verifier::external_type_specification]
#[verifier::external_body]
#[verifier::reject_recursive_types(B)]
pub struct ExBitVec<B>(bit_vec::BitVec<B>);

/// The bits that a `bit_vec::BitVec` holds, in positional order.
pub uninterp spec fn bits_of(v: bit_vec::BitVec) -> Seq<bool>;

/// Relies on `bit_vec::BitVec::from_elem`: a vector of `len` bits, every one
/// set to the given element, here `false`.
#[verifier::external_body]
pub(crate) fn bitvec_new(len: usize) -> (r: bit_vec::BitVec)
    ensures
        bits_of(r) == Seq::new(len as nat, |j: int| false),
{
    bit_vec::BitVec::from_elem(len, false)
}

/// Relies on `bit_vec::BitVec::len`: the number of bits held.
#[verifier::external_body]
pub(crate) fn bitvec_len(v: &bit_vec::BitVec) -> (r: usize)
    ensures
        r == bits_of(*v).len(),
{
    v.len()
}

/// Relies on `bit_vec::BitVec::get`: `Some` of the bit at `i` when `i` is in
/// range, `None` otherwise; the vector is untouched.
#[verifier::external_body]
pub(crate) fn bitvec_get(v: &bit_vec::BitVec, i: usize) -> (r: Option<bool>)
    ensures
        i < bits_of(*v).len() ==> r == Some(bits_of(*v)[i as int]),
        i >= bits_of(*v).len() ==> r is None,
{
    v.get(i)
}

/// Relies on `bit_vec::BitVec::set`: writes the given bit, here `true`, at
/// `i` and changes nothing else; it panics out of range, so `i` must be in
/// range.
#[verifier::external_body]
pub(crate) fn bitvec_set(v: &mut bit_vec::BitVec, i: usize)
    requires
        i < bits_of(*old(v)).len(),
    ensures
        bits_of(*final(v)) == bits_of(*old(v)).update(i as int, true),
{
    v.set(i, true);
}

} // verus!
