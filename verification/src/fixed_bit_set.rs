//! Trusted interface to `fixedbitset::FixedBitSet`.
//!
//! A bit set is described by two names: the set of enabled bit indices and the
//! number of bits it holds (its length). Every operation below states what it
//! does to both, as the crate's source shows it.
use fixedbitset::FixedBitSet;
use vstd::prelude::*;

verus! {

#[verifier::external_type_specification]
#[verifier::external_body]
pub struct ExFixedBitSet(FixedBitSet);

/// The indices of the enabled bits of a `FixedBitSet`.
pub uninterp spec fn fbs_ones(s: FixedBitSet) -> Set<usize>;

/// The length in bits of a `FixedBitSet` (enabled and disabled bits together).
pub uninterp spec fn fbs_len(s: FixedBitSet) -> nat;

/// Every enabled bit lies below the length.
pub open spec fn fbs_wf(s: FixedBitSet) -> bool {
    &&& forall|i: usize| #[trigger] fbs_ones(s).contains(i) ==> i < fbs_len(s)
    &&& fbs_len(s) <= usize::MAX
}

/// `FixedBitSet::new`: an empty set of length zero.
#[verifier::external_body]
pub(crate) fn fbs_new() -> (r: FixedBitSet)
    ensures
        fbs_ones(r) == Set::<usize>::empty(),
        fbs_len(r) == 0,
        fbs_wf(r),
{
    FixedBitSet::new()
}

/// `FixedBitSet::with_capacity`: `bits` disabled bits.
#[verifier::external_body]
pub(crate) fn fbs_with_capacity(bits: usize) -> (r: FixedBitSet)
    ensures
        fbs_ones(r) == Set::<usize>::empty(),
        fbs_len(r) == bits,
        fbs_wf(r),
{
    FixedBitSet::with_capacity(bits)
}

/// `FixedBitSet::len`: the length in bits.
#[verifier::external_body]
pub(crate) fn fbs_bit_len(s: &FixedBitSet) -> (r: usize)
    ensures
        r == fbs_len(*s),
{
    s.len()
}

/// `FixedBitSet::grow`: the length becomes at least `bits`; new bits are disabled.
#[verifier::external_body]
pub(crate) fn fbs_grow(s: &mut FixedBitSet, bits: usize)
    requires
        fbs_wf(*old(s)),
    ensures
        fbs_ones(*final(s)) == fbs_ones(*old(s)),
        fbs_len(*final(s)) == if bits > fbs_len(*old(s)) { bits as nat } else { fbs_len(*old(s)) },
        fbs_wf(*final(s)),
{
    s.grow(bits)
}

/// `FixedBitSet::insert`: enables bit `bit`, which must lie below the length
/// (the crate panics otherwise).
#[verifier::external_body]
pub(crate) fn fbs_insert(s: &mut FixedBitSet, bit: usize)
    requires
        fbs_wf(*old(s)),
        bit < fbs_len(*old(s)),
    ensures
        fbs_ones(*final(s)) == fbs_ones(*old(s)).insert(bit),
        fbs_len(*final(s)) == fbs_len(*old(s)),
        fbs_wf(*final(s)),
{
    s.insert(bit)
}

/// `FixedBitSet::grow_and_insert`: grows the length to at least `bit + 1`, then
/// enables `bit`.
#[verifier::external_body]
pub(crate) fn fbs_grow_and_insert(s: &mut FixedBitSet, bit: usize)
    requires
        fbs_wf(*old(s)),
        bit < usize::MAX,
    ensures
        fbs_ones(*final(s)) == fbs_ones(*old(s)).insert(bit),
        fbs_len(*final(s)) == if bit + 1 > fbs_len(*old(s)) { (bit + 1) as nat } else { fbs_len(*old(s)) },
        fbs_wf(*final(s)),
{
    s.grow_and_insert(bit)
}

/// `FixedBitSet::remove`: disables bit `bit`, which must lie below the length
/// (the crate panics otherwise).
#[verifier::external_body]
pub(crate) fn fbs_remove(s: &mut FixedBitSet, bit: usize)
    requires
        fbs_wf(*old(s)),
        bit < fbs_len(*old(s)),
    ensures
        fbs_ones(*final(s)) == fbs_ones(*old(s)).remove(bit),
        fbs_len(*final(s)) == fbs_len(*old(s)),
        fbs_wf(*final(s)),
{
    s.remove(bit)
}

/// `FixedBitSet::contains`: whether `bit` is enabled (bits beyond the length
/// are disabled).
#[verifier::external_body]
pub(crate) fn fbs_contains(s: &FixedBitSet, bit: usize) -> (r: bool)
    ensures
        r == fbs_ones(*s).contains(bit),
{
    s.contains(bit)
}

/// `FixedBitSet::clear`: disables every bit, keeping the length.
#[verifier::external_body]
pub(crate) fn fbs_clear(s: &mut FixedBitSet)
    requires
        fbs_wf(*old(s)),
    ensures
        fbs_ones(*final(s)) == Set::<usize>::empty(),
        fbs_len(*final(s)) == fbs_len(*old(s)),
        fbs_wf(*final(s)),
{
    s.clear()
}

/// `FixedBitSet::is_clear`: whether no bit is enabled.
#[verifier::external_body]
pub(crate) fn fbs_is_clear(s: &FixedBitSet) -> (r: bool)
    ensures
        r == (fbs_ones(*s) == Set::<usize>::empty()),
{
    s.is_clear()
}

/// `FixedBitSet::union_with`: in-place union; the length grows to the larger of
/// the two.
#[verifier::external_body]
pub(crate) fn fbs_union_with(s: &mut FixedBitSet, other: &FixedBitSet)
    requires
        fbs_wf(*old(s)),
        fbs_wf(*other),
    ensures
        fbs_ones(*final(s)) == fbs_ones(*old(s)).union(fbs_ones(*other)),
        fbs_len(*final(s)) == if fbs_len(*other) > fbs_len(*old(s)) { fbs_len(*other) } else { fbs_len(*old(s)) },
        fbs_wf(*final(s)),
{
    s.union_with(other)
}

/// `FixedBitSet::intersect_with`: in-place intersection; the length is kept.
#[verifier::external_body]
pub(crate) fn fbs_intersect_with(s: &mut FixedBitSet, other: &FixedBitSet)
    requires
        fbs_wf(*old(s)),
        fbs_wf(*other),
    ensures
        fbs_ones(*final(s)) == fbs_ones(*old(s)).intersect(fbs_ones(*other)),
        fbs_len(*final(s)) == fbs_len(*old(s)),
        fbs_wf(*final(s)),
{
    s.intersect_with(other)
}

/// `FixedBitSet::difference_with`: in-place difference; the length is kept.
#[verifier::external_body]
pub(crate) fn fbs_difference_with(s: &mut FixedBitSet, other: &FixedBitSet)
    requires
        fbs_wf(*old(s)),
        fbs_wf(*other),
    ensures
        fbs_ones(*final(s)) == fbs_ones(*old(s)).difference(fbs_ones(*other)),
        fbs_len(*final(s)) == fbs_len(*old(s)),
        fbs_wf(*final(s)),
{
    s.difference_with(other)
}

/// `FixedBitSet::toggle_range(..)`: flips every bit below the length.
#[verifier::external_body]
pub(crate) fn fbs_toggle_all(s: &mut FixedBitSet)
    requires
        fbs_wf(*old(s)),
    ensures
        forall|i: usize|
            #[trigger] fbs_ones(*final(s)).contains(i) == (i < fbs_len(*old(s)) && !fbs_ones(
                *old(s),
            ).contains(i)),
        fbs_len(*final(s)) == fbs_len(*old(s)),
        fbs_wf(*final(s)),
{
    s.toggle_range(..)
}

/// `FixedBitSet::is_subset`: whether every enabled bit of `s` is enabled in `other`.
#[verifier::external_body]
pub(crate) fn fbs_is_subset(s: &FixedBitSet, other: &FixedBitSet) -> (r: bool)
    ensures
        r == fbs_ones(*s).subset_of(fbs_ones(*other)),
{
    s.is_subset(other)
}

/// `FixedBitSet::is_disjoint`: whether no bit is enabled in both.
#[verifier::external_body]
pub(crate) fn fbs_is_disjoint(s: &FixedBitSet, other: &FixedBitSet) -> (r: bool)
    ensures
        r == fbs_ones(*s).disjoint(fbs_ones(*other)),
{
    s.is_disjoint(other)
}

/// `FixedBitSet::ones`, collected: the enabled bits in increasing order.
#[verifier::external_body]
pub(crate) fn fbs_ones_vec(s: &FixedBitSet) -> (r: Vec<usize>)
    ensures
        forall|i: int, j: int| 0 <= i < j < r@.len() ==> r@[i] < r@[j],
        forall|k: usize| #[trigger] r@.contains(k) == fbs_ones(*s).contains(k),
{
    s.ones().collect()
}

/// `FixedBitSet::clone`: the same bits and the same length.
#[verifier::external_body]
pub(crate) fn fbs_clone(s: &FixedBitSet) -> (r: FixedBitSet)
    ensures
        fbs_ones(r) == fbs_ones(*s),
        fbs_len(r) == fbs_len(*s),
{
    s.clone()
}

} // verus!
