//! A set of [`ComponentId`]s backed by a `FixedBitSet`.
use crate::component::ComponentId;
use crate::fixed_bit_set::{
    fbs_bit_len, fbs_clear, fbs_clone, fbs_contains, fbs_difference_with, fbs_grow,
    fbs_grow_and_insert, fbs_intersect_with, fbs_is_clear, fbs_is_disjoint, fbs_is_subset, fbs_len,
    fbs_new, fbs_ones, fbs_ones_vec, fbs_remove, fbs_toggle_all, fbs_union_with, fbs_wf,
    fbs_with_capacity,
};
use fixedbitset::FixedBitSet;
use vstd::prelude::*;

verus! {

/// `ids` lists the members of `set` once each, in increasing order of index.
pub open spec fn enumerates(ids: Seq<ComponentId>, set: Set<usize>) -> bool {
    &&& forall|i: int, j: int| 0 <= i < j < ids.len() ==> ids[i].0 < ids[j].0
    &&& forall|k: usize| set.contains(k) <==> exists|i: int| 0 <= i < ids.len() && ids[i].0 == k
}

/// The set of indices of the identifiers in `ids`.
pub open spec fn ids_set(ids: Seq<ComponentId>) -> Set<usize> {
    Set::new(|k: usize| exists|i: int| 0 <= i < ids.len() && ids[i].0 == k)
}

/// A set of component identifiers.
///
/// Its length (the number of bits the underlying bit set holds) is observable
/// through equality: two sets with the same members but different lengths
/// compare unequal.
#[derive(Debug, PartialEq, Eq)]
pub struct ComponentIdSet {
    bits: FixedBitSet,
}

impl View for ComponentIdSet {
    type V = Set<usize>;

    closed spec fn view(&self) -> Set<usize> {
        fbs_ones(self.bits)
    }
}

impl ComponentIdSet {
    /// Well-formedness: every member lies below the bit length.
    pub closed spec fn wf(&self) -> bool {
        fbs_wf(self.bits)
    }

    /// The number of bits of the underlying bit set.
    pub closed spec fn bit_len(&self) -> nat {
        fbs_len(self.bits)
    }

    /// Every member of a well-formed set lies below its bit length.
    pub proof fn lemma_members_below_len(&self, k: usize)
        requires
            self.wf(),
            self@.contains(k),
        ensures
            k < self.bit_len(),
            self.bit_len() <= usize::MAX,
    {
    }

    /// The length of a well-formed set fits in a `usize`.
    pub proof fn lemma_bit_len_bound(&self)
        requires
            self.wf(),
        ensures
            self.bit_len() <= usize::MAX,
    {
    }

    /// Creates an empty set.
    pub fn new() -> (r: ComponentIdSet)
        ensures
            r.wf(),
            r@ == Set::<usize>::empty(),
            r.bit_len() == 0,
    {
        ComponentIdSet { bits: fbs_new() }
    }

    /// Creates an empty set with room for `bits` identifiers without growing.
    pub fn with_capacity(bits: usize) -> (r: ComponentIdSet)
        ensures
            r.wf(),
            r@ == Set::<usize>::empty(),
            r.bit_len() == bits,
    {
        ComponentIdSet { bits: fbs_with_capacity(bits) }
    }

    /// Returns a set with the same members and the same bit length.
    pub fn duplicate(&self) -> (r: ComponentIdSet)
        requires
            self.wf(),
        ensures
            r.wf(),
            r@ == self@,
            r.bit_len() == self.bit_len(),
    {
        ComponentIdSet { bits: fbs_clone(&self.bits) }
    }

    /// Creates a set holding exactly the given identifiers.
    pub fn from_iter(ids: &[ComponentId]) -> (r: ComponentIdSet)
        requires
            forall|i: int| 0 <= i < ids@.len() ==> ids@[i].0 < usize::MAX,
        ensures
            r.wf(),
            r@ == ids_set(ids@),
    {
        let mut r = ComponentIdSet::new();
        let mut i: usize = 0;
        while i < ids.len()
            invariant
                0 <= i <= ids@.len(),
                r.wf(),
                forall|j: int| 0 <= j < ids@.len() ==> ids@[j].0 < usize::MAX,
                r@ == ids_set(ids@.take(i as int)),
            decreases ids@.len() - i,
        {
            r.insert(ids[i]);
            proof {
                assert(ids@.take(i as int + 1) == ids@.take(i as int).push(ids@[i as int]));
                assert(ids_set(ids@.take(i as int + 1)) =~= ids_set(ids@.take(i as int)).insert(
                    ids@[i as int].0,
                )) by {
                    let t = ids@.take(i as int + 1);
                    assert forall|k: usize|
                        ids_set(t).contains(k) implies ids_set(ids@.take(i as int)).insert(
                        ids@[i as int].0,
                    ).contains(k) by {
                        let w = choose|w: int| 0 <= w < t.len() && t[w].0 == k;
                        if w < i {
                            assert(ids@.take(i as int)[w] == t[w]);
                        }
                    }
                    assert forall|k: usize|
                        ids_set(ids@.take(i as int)).insert(ids@[i as int].0).contains(
                            k,
                        ) implies ids_set(t).contains(k) by {
                        if k == ids@[i as int].0 {
                            assert(t[i as int].0 == k);
                        } else {
                            let w = choose|w: int|
                                0 <= w < ids@.take(i as int).len() && ids@.take(i as int)[w].0
                                    == k;
                            assert(t[w].0 == k);
                        }
                    }
                }
            }
            i = i + 1;
        }
        assert(ids@.take(ids@.len() as int) == ids@);
        r
    }

    /// Adds `id` to the set, growing it if needed.
    pub fn insert(&mut self, id: ComponentId)
        requires
            old(self).wf(),
            id.0 < usize::MAX,
        ensures
            final(self).wf(),
            final(self)@ == old(self)@.insert(id.0),
            final(self).bit_len() == if id.0 + 1 > old(self).bit_len() {
                (id.0 + 1) as nat
            } else {
                old(self).bit_len()
            },
    {
        fbs_grow_and_insert(&mut self.bits, id.0);
    }

    /// Removes `id` from the set; identifiers beyond the set's length are
    /// already absent and leave it unchanged.
    pub fn remove(&mut self, id: ComponentId)
        requires
            old(self).wf(),
        ensures
            final(self).wf(),
            final(self)@ == old(self)@.remove(id.0),
            final(self).bit_len() == old(self).bit_len(),
    {
        if id.0 < fbs_bit_len(&self.bits) {
            fbs_remove(&mut self.bits, id.0);
        } else {
            assert(old(self)@.remove(id.0) =~= old(self)@);
        }
    }

    /// Returns whether `id` is in the set.
    pub fn contains(&self, id: ComponentId) -> (r: bool)
        ensures
            r == self@.contains(id.0),
    {
        fbs_contains(&self.bits, id.0)
    }

    /// Removes every identifier, keeping the bit length.
    pub fn clear(&mut self)
        requires
            old(self).wf(),
        ensures
            final(self).wf(),
            final(self)@ == Set::<usize>::empty(),
            final(self).bit_len() == old(self).bit_len(),
    {
        fbs_clear(&mut self.bits);
    }

    /// Returns whether the set holds no identifier.
    pub fn is_clear(&self) -> (r: bool)
        ensures
            r == (self@ == Set::<usize>::empty()),
            !r ==> exists|k: usize| #[trigger] self@.contains(k),
    {
        let r = fbs_is_clear(&self.bits);
        proof {
            if !r {
                assert(!(self@ =~= Set::<usize>::empty()));
            }
        }
        r
    }

    /// Returns the bit length of the set.
    pub fn len(&self) -> (r: usize)
        ensures
            r == self.bit_len(),
    {
        fbs_bit_len(&self.bits)
    }

    /// Grows the bit length to at least `bits`, leaving the members unchanged.
    pub fn grow(&mut self, bits: usize)
        requires
            old(self).wf(),
        ensures
            final(self).wf(),
            final(self)@ == old(self)@,
            final(self).bit_len() == if bits > old(self).bit_len() {
                bits as nat
            } else {
                old(self).bit_len()
            },
    {
        fbs_grow(&mut self.bits, bits);
    }

    /// Replaces the members by the identifiers below the bit length that were
    /// not members.
    pub fn toggle_all(&mut self)
        requires
            old(self).wf(),
        ensures
            final(self).wf(),
            forall|k: usize| #[trigger]
                final(self)@.contains(k) == (k < old(self).bit_len() && !old(self)@.contains(k)),
            final(self).bit_len() == old(self).bit_len(),
    {
        fbs_toggle_all(&mut self.bits);
    }

    /// Returns whether every member of `self` is in `other`.
    pub fn is_subset(&self, other: &ComponentIdSet) -> (r: bool)
        ensures
            r == self@.subset_of(other@),
    {
        fbs_is_subset(&self.bits, &other.bits)
    }

    /// Returns whether `self` and `other` have no member in common.
    pub fn is_disjoint(&self, other: &ComponentIdSet) -> (r: bool)
        ensures
            r == self@.disjoint(other@),
    {
        fbs_is_disjoint(&self.bits, &other.bits)
    }

    /// Adds every member of `other` to `self`.
    pub fn union_with(&mut self, other: &ComponentIdSet)
        requires
            old(self).wf(),
            other.wf(),
        ensures
            final(self).wf(),
            final(self)@ == old(self)@.union(other@),
            final(self).bit_len() == if other.bit_len() > old(self).bit_len() {
                other.bit_len()
            } else {
                old(self).bit_len()
            },
    {
        fbs_union_with(&mut self.bits, &other.bits);
    }

    /// Keeps only the members of `self` that are also in `other`.
    pub fn intersect_with(&mut self, other: &ComponentIdSet)
        requires
            old(self).wf(),
            other.wf(),
        ensures
            final(self).wf(),
            final(self)@ == old(self)@.intersect(other@),
            final(self).bit_len() == old(self).bit_len(),
    {
        fbs_intersect_with(&mut self.bits, &other.bits);
    }

    /// Removes the members of `other` from `self`.
    pub fn difference_with(&mut self, other: &ComponentIdSet)
        requires
            old(self).wf(),
            other.wf(),
        ensures
            final(self).wf(),
            final(self)@ == old(self)@.difference(other@),
            final(self).bit_len() == old(self).bit_len(),
    {
        fbs_difference_with(&mut self.bits, &other.bits);
    }

    /// Replaces `self` by the members of `other` that are not in `self`.
    pub fn difference_from(&mut self, other: &ComponentIdSet)
        requires
            old(self).wf(),
            other.wf(),
        ensures
            final(self).wf(),
            final(self)@ == other@.difference(old(self)@),
            final(self).bit_len() == if other.bit_len() > old(self).bit_len() {
                other.bit_len()
            } else {
                old(self).bit_len()
            },
    {
        let len = fbs_bit_len(&other.bits);
        fbs_grow(&mut self.bits, len);
        fbs_toggle_all(&mut self.bits);
        fbs_intersect_with(&mut self.bits, &other.bits);
        proof {
            let a = old(self)@;
            let b = other@;
            assert forall|k: usize| #[trigger] fbs_ones(self.bits).contains(k) == b.difference(
                a,
            ).contains(k) by {
                if b.contains(k) {
                    assert(k < fbs_len(other.bits));
                }
            }
            assert(fbs_ones(self.bits) =~= b.difference(a));
        }
    }

    /// Lists the members in increasing order.
    pub fn iter(&self) -> (r: Vec<ComponentId>)
        ensures
            enumerates(r@, self@),
    {
        let ones = fbs_ones_vec(&self.bits);
        let mut r: Vec<ComponentId> = Vec::new();
        let mut i: usize = 0;
        while i < ones.len()
            invariant
                0 <= i <= ones@.len(),
                r@.len() == i,
                forall|j: int| 0 <= j < i ==> r@[j].0 == ones@[j],
            decreases ones@.len() - i,
        {
            r.push(ComponentId(ones[i]));
            i = i + 1;
        }
        proof {
            assert forall|a: int, b: int| 0 <= a < b < r@.len() implies r@[a].0 < r@[b].0 by {
                assert(r@[a].0 == ones@[a]);
                assert(r@[b].0 == ones@[b]);
            }
            assert forall|k: usize| self@.contains(k) <==> exists|j: int|
                0 <= j < r@.len() && r@[j].0 == k by {
                if self@.contains(k) {
                    assert(ones@.contains(k));
                    let j = choose|j: int| 0 <= j < ones@.len() && ones@[j] == k;
                    assert(r@[j].0 == k);
                }
                if exists|j: int| 0 <= j < r@.len() && r@[j].0 == k {
                    let j = choose|j: int| 0 <= j < r@.len() && r@[j].0 == k;
                    assert(ones@[j] == k);
                    assert(ones@.contains(k));
                }
            }
        }
        r
    }

    /// Lists the members of `self` in increasing order, followed by the
    /// members of `other` that are not in `self`, in increasing order.
    pub fn union(&self, other: &ComponentIdSet) -> (r: Vec<ComponentId>)
        requires
            self.wf(),
            other.wf(),
        ensures
            exists|n: int|
                0 <= n <= r@.len() && enumerates(r@.subrange(0, n), self@) && enumerates(
                    r@.subrange(n, r@.len() as int),
                    other@.difference(self@),
                ),
    {
        let mut first = self.iter();
        let mut rest = other.duplicate();
        rest.difference_with(self);
        let mut second = rest.iter();
        let ghost n = first@.len() as int;
        let ghost a = first@;
        let ghost b = second@;
        first.append(&mut second);
        proof {
            assert(first@.subrange(0, n) =~= a);
            assert(first@.subrange(n, first@.len() as int) =~= b);
        }
        first
    }

    /// Lists the members of both sets in increasing order.
    pub fn intersection(&self, other: &ComponentIdSet) -> (r: Vec<ComponentId>)
        requires
            self.wf(),
            other.wf(),
        ensures
            enumerates(r@, self@.intersect(other@)),
    {
        let mut s = self.duplicate();
        s.intersect_with(other);
        s.iter()
    }

    /// Lists the members of `self` that are not in `other`, in increasing order.
    pub fn difference(&self, other: &ComponentIdSet) -> (r: Vec<ComponentId>)
        requires
            self.wf(),
            other.wf(),
        ensures
            enumerates(r@, self@.difference(other@)),
    {
        let mut s = self.duplicate();
        s.difference_with(other);
        s.iter()
    }
}

impl Clone for ComponentIdSet {
    fn clone(&self) -> (r: Self)
        ensures
            r@ == self@,
            r.bit_len() == self.bit_len(),
            self.wf() ==> r.wf(),
    {
        ComponentIdSet { bits: fbs_clone(&self.bits) }
    }
}

impl Default for ComponentIdSet {
    fn default() -> (r: Self)
        ensures
            r.wf(),
            r@ == Set::<usize>::empty(),
            r.bit_len() == 0,
    {
        ComponentIdSet::new()
    }
}

} // verus!
