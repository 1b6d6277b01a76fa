//! Bit sequences of a fixed length, kept in `bit_vec::BitVec`. What the
//! crate's operations do is taken on trust, as stated at each of them.
use vstd::prelude::*;
use bit_vec::BitVec;

verus! {

#[verifier::external_type_specification]
#[verifier::external_body]
#[verifier::reject_recursive_types(B)]
pub struct ExBitVec<B>(BitVec<B>);

/// The bits that a bit vector holds, in order.
pub uninterp spec fn bits_of(v: BitVec<u32>) -> Seq<bool>;

/// All the bits are set. None is unset where there is no bit at all.
pub open spec fn all_set(bits: Seq<bool>) -> bool {
    forall|i: int| 0 <= i < bits.len() ==> bits[i]
}

/// Some bit is set.
pub open spec fn any_set(bits: Seq<bool>) -> bool {
    exists|i: int| 0 <= i < bits.len() && bits[i]
}

/// `BitVec::from_elem` with the bit `false`: a vector of `n` bits, none of
/// them set.
#[verifier::external_body]
pub(crate) fn bits_new(n: usize) -> (v: BitVec<u32>)
    ensures
        bits_of(v) == Seq::new(n as nat, |i: int| false),
{
    BitVec::from_elem(n, false)
}

/// `BitVec::set` with the bit `true`: the bit at `i` is set and the others
/// stay. It panics where `i` is no position of the vector.
#[verifier::external_body]
pub(crate) fn bits_set(v: &mut BitVec<u32>, i: usize)
    requires
        i < bits_of(*old(v)).len(),
    ensures
        bits_of(*final(v)) == bits_of(*old(v)).update(i as int, true),
{
    v.set(i, true)
}

/// `BitVec::get`: the bit at `i`, for a position of the vector.
#[verifier::external_body]
pub(crate) fn bits_get(v: &BitVec<u32>, i: usize) -> (b: bool)
    requires
        i < bits_of(*v).len(),
    ensures
        b == bits_of(*v)[i as int],
{
    v.get(i).unwrap()
}

/// `BitVec::len`: the number of bits.
#[verifier::external_body]
pub(crate) fn bits_len(v: &BitVec<u32>) -> (n: usize)
    ensures
        n == bits_of(*v).len(),
{
    v.len()
}

/// `BitVec::all`: whether every bit is set; true of the empty vector.
#[verifier::external_body]
pub(crate) fn bits_all(v: &BitVec<u32>) -> (b: bool)
    ensures
        b == all_set(bits_of(*v)),
{
    v.all()
}

/// `BitVec::any`: whether some bit is set.
#[verifier::external_body]
pub(crate) fn bits_any(v: &BitVec<u32>) -> (b: bool)
    ensures
        b == any_set(bits_of(*v)),
{
    v.any()
}

} // verus!
