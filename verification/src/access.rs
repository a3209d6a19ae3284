//! Tracking of read and write access to components, and detection of
//! conflicting access between systems and queries.
use crate::component::ComponentId;
use crate::component_id_set::{enumerates, ComponentIdSet};
use vstd::prelude::*;

verus! {

/// Whether `k` is a member of the set described by `set` and the inversion flag
/// `inverted` (an inverted set holds exactly the indices that `set` lacks).
pub open spec fn inv_member(set: Set<usize>, inverted: bool, k: usize) -> bool {
    set.contains(k) != inverted
}

/// Replaces `(self_set, self_inverted)` by the union of the two possibly inverted
/// sets.
pub fn invertible_union_with(
    self_set: &mut ComponentIdSet,
    self_inverted: &mut bool,
    other_set: &ComponentIdSet,
    other_inverted: bool,
)
    requires
        old(self_set).wf(),
        other_set.wf(),
    ensures
        final(self_set).wf(),
        *final(self_inverted) == (*old(self_inverted) || other_inverted),
        forall|k: usize| #[trigger]
            inv_member(final(self_set)@, *final(self_inverted), k) == (inv_member(
                old(self_set)@,
                *old(self_inverted),
                k,
            ) || inv_member(other_set@, other_inverted, k)),
{
    if *self_inverted {
        if other_inverted {
            // neither excluded set survives outside the other
            self_set.intersect_with(other_set);
        } else {
            self_set.difference_with(other_set);
        }
    } else {
        if other_inverted {
            *self_inverted = true;
            // The bits beyond our length are flipped to ones, so grow first.
            let len = other_set.len();
            self_set.grow(len);
            self_set.toggle_all();
            self_set.intersect_with(other_set);
            proof {
                assert forall|k: usize| #[trigger] other_set@.contains(k) implies k
                    < other_set.bit_len() by {
                    other_set.lemma_members_below_len(k);
                }
            }
        } else {
            self_set.union_with(other_set);
        }
    }
}

/// Replaces `(self_set, self_inverted)` by the difference of the two possibly
/// inverted sets.
pub fn invertible_difference_with(
    self_set: &mut ComponentIdSet,
    self_inverted: &mut bool,
    other_set: &ComponentIdSet,
    other_inverted: bool,
)
    requires
        old(self_set).wf(),
        other_set.wf(),
    ensures
        final(self_set).wf(),
        *final(self_inverted) == (*old(self_inverted) && !other_inverted),
        forall|k: usize| #[trigger]
            inv_member(final(self_set)@, *final(self_inverted), k) == (inv_member(
                old(self_set)@,
                *old(self_inverted),
                k,
            ) && !inv_member(other_set@, other_inverted, k)),
{
    if *self_inverted {
        if other_inverted {
            *self_inverted = false;
            self_set.difference_from(other_set);
        } else {
            self_set.union_with(other_set);
        }
    } else {
        if other_inverted {
            self_set.intersect_with(other_set);
        } else {
            self_set.difference_with(other_set);
        }
    }
}

/// Returns whether the set given by `a` (its complement when `a_inverted`) is
/// a subset of the set given by `b` (its complement when `b_inverted`).
pub fn invertible_is_subset(a: &ComponentIdSet, a_inverted: bool, b: &ComponentIdSet, b_inverted: bool) -> (r: bool)
    requires
        a.wf(),
        b.wf(),
    ensures
        r ==> forall|k: usize| #[trigger] inv_member(a@, a_inverted, k) ==> inv_member(b@, b_inverted, k),
        !r ==> exists|k: usize| #[trigger] inv_member(a@, a_inverted, k) && !inv_member(b@, b_inverted, k),
{
    if a_inverted {
        if !b_inverted {
            // the complement of a finite set is in no finite set
            proof {
                a.lemma_bit_len_bound();
                b.lemma_bit_len_bound();
                let k: usize = if a.bit_len() >= b.bit_len() {
                    a.bit_len() as usize
                } else {
                    b.bit_len() as usize
                };
                if a@.contains(k) {
                    a.lemma_members_below_len(k);
                }
                if b@.contains(k) {
                    b.lemma_members_below_len(k);
                }
                assert(inv_member(a@, a_inverted, k) && !inv_member(b@, b_inverted, k));
            }
            return false;
        }
        // the complement of `a` lies in the complement of `b` when `b` lies in `a`
        let r = b.is_subset(a);
        proof {
            if !r {
                let k = choose|k: usize| b@.contains(k) && !a@.contains(k);
                assert(inv_member(a@, a_inverted, k) && !inv_member(b@, b_inverted, k));
            }
        }
        r
    } else if b_inverted {
        let r = a.is_disjoint(b);
        proof {
            if !r {
                let k = choose|k: usize| a@.contains(k) && b@.contains(k);
                assert(inv_member(a@, a_inverted, k) && !inv_member(b@, b_inverted, k));
            }
        }
        r
    } else {
        let r = a.is_subset(b);
        proof {
            if !r {
                let k = choose|k: usize| a@.contains(k) && !b@.contains(k);
                assert(inv_member(a@, a_inverted, k) && !inv_member(b@, b_inverted, k));
            }
        }
        r
    }
}

/// The kind of access a system has to one component.
#[derive(Clone, Copy, Debug, PartialEq, Eq)]
pub enum ComponentAccessKind {
    /// Archetypal access: only whether the component is present is observed.
    Archetypal(ComponentId),
    /// Shared (read) access.
    Shared(ComponentId),
    /// Exclusive (write) access.
    Exclusive(ComponentId),
}

/// Error returned when the component access cannot be listed because it covers
/// an unbounded set of components.
#[derive(Clone, Copy, Debug, PartialEq, Eq)]
pub struct UnboundedAccessError {
    /// Whether the writes cover every component but finitely many.
    pub writes_inverted: bool,
    /// Whether the reads cover every component but finitely many.
    pub read_and_writes_inverted: bool,
}

/// Tracks read and write access to specific elements in a collection.
///
/// Used internally to ensure soundness during system initialization and execution.
/// See the [`is_compatible`](Access::is_compatible) and [`get_conflicts`](Access::get_conflicts) functions.
#[derive(Debug, PartialEq, Eq)]
pub struct Access {
    /// The components read or written (or, when inverted, the ones not read).
    component_read_and_writes: ComponentIdSet,
    /// The components written (or, when inverted, the ones not written).
    component_writes: ComponentIdSet,
    component_read_and_writes_inverted: bool,
    component_writes_inverted: bool,
    /// Components whose presence is observed without reading them.
    archetypal: ComponentIdSet,
}

impl Access {
    /// Whether component `k` may be read.
    pub closed spec fn reads(&self, k: usize) -> bool {
        inv_member(self.component_read_and_writes@, self.component_read_and_writes_inverted, k)
    }

    /// Whether component `k` may be written.
    pub closed spec fn writes(&self, k: usize) -> bool {
        inv_member(self.component_writes@, self.component_writes_inverted, k)
    }

    /// Whether the reads are given by the complement of a finite set.
    pub closed spec fn reads_inverted(&self) -> bool {
        self.component_read_and_writes_inverted
    }

    /// Whether the writes are given by the complement of a finite set.
    pub closed spec fn writes_inverted(&self) -> bool {
        self.component_writes_inverted
    }

    /// The components with archetypal access.
    pub closed spec fn archetypal_set(&self) -> Set<usize> {
        self.archetypal@
    }

    /// Well-formedness: the sets are well formed, every written component is
    /// also read, and the writes are only inverted when the reads are.
    pub closed spec fn wf(&self) -> bool {
        &&& self.component_read_and_writes.wf()
        &&& self.component_writes.wf()
        &&& self.archetypal.wf()
        &&& (self.component_writes_inverted ==> self.component_read_and_writes_inverted)
        &&& forall|k: usize| #[trigger] self.writes(k) ==> self.reads(k)
    }

    /// Whether `self` and `other` cannot both access component `k`: one of them
    /// writes it and the other reads it.
    pub open spec fn conflicts_on(&self, other: &Access, k: usize) -> bool {
        (self.writes(k) && other.reads(k)) || (other.writes(k) && self.reads(k))
    }

    /// Whether `self` and `other` can run at the same time.
    pub open spec fn compatible(&self, other: &Access) -> bool {
        forall|k: usize| !#[trigger] self.conflicts_on(other, k)
    }

    /// Whether the conflicts between `self` and `other` cover every component
    /// but finitely many, so that they cannot be listed.
    pub open spec fn conflicts_unbounded(&self, other: &Access) -> bool {
        (self.writes_inverted() && other.reads_inverted()) || (other.writes_inverted()
            && self.reads_inverted())
    }

    /// The components on which `self` and `other` conflict.
    pub open spec fn conflict_set(&self, other: &Access) -> Set<usize> {
        Set::new(|k: usize| self.conflicts_on(other, k))
    }

    /// Whether `self` has no access at all.
    pub open spec fn is_empty_spec(&self) -> bool {
        &&& forall|k: usize| !#[trigger] self.reads(k)
        &&& self.archetypal_set() == Set::<usize>::empty()
    }

    /// Reads and writes of a well-formed access are related as stated by `wf`.
    pub proof fn lemma_wf(&self)
        requires
            self.wf(),
        ensures
            forall|k: usize| #[trigger] self.writes(k) ==> self.reads(k),
            self.writes_inverted() ==> self.reads_inverted(),
    {
    }

    /// Creates an empty [`Access`] collection.
    pub fn new() -> (r: Access)
        ensures
            r.wf(),
            r.is_empty_spec(),
            forall|k: usize| !#[trigger] r.writes(k),
            !r.reads_inverted(),
            !r.writes_inverted(),
    {
        Access {
            component_read_and_writes: ComponentIdSet::new(),
            component_writes: ComponentIdSet::new(),
            component_read_and_writes_inverted: false,
            component_writes_inverted: false,
            archetypal: ComponentIdSet::new(),
        }
    }

    /// Adds access to the component given by `index`.
    pub fn add_read(&mut self, index: ComponentId)
        requires
            old(self).wf(),
            index.0 < usize::MAX,
        ensures
            final(self).wf(),
            forall|k: usize| #[trigger] final(self).reads(k) == (old(self).reads(k) || k == index.0),
            forall|k: usize| #[trigger] final(self).writes(k) == old(self).writes(k),
            final(self).archetypal_set() == old(self).archetypal_set(),
            final(self).reads_inverted() == old(self).reads_inverted(),
            final(self).writes_inverted() == old(self).writes_inverted(),
    {
        if !self.component_read_and_writes_inverted {
            self.component_read_and_writes.insert(index);
        } else if index.0 < self.component_read_and_writes.len() {
            self.component_read_and_writes.remove(index);
        } else {
            proof {
                if self.component_read_and_writes@.contains(index.0) {
                    self.component_read_and_writes.lemma_members_below_len(index.0);
                }
            }
        }
            proof {
            assert forall|k: usize| #[trigger] self.writes(k) implies self.reads(k) by {
                assert(old(self).writes(k) ==> old(self).reads(k));
            }
        }
    }

    /// Adds exclusive access to the component given by `index`.
    pub fn add_write(&mut self, index: ComponentId)
        requires
            old(self).wf(),
            index.0 < usize::MAX,
        ensures
            final(self).wf(),
            forall|k: usize| #[trigger] final(self).reads(k) == (old(self).reads(k) || k == index.0),
            forall|k: usize| #[trigger] final(self).writes(k) == (old(self).writes(k) || k == index.0),
            final(self).archetypal_set() == old(self).archetypal_set(),
            final(self).reads_inverted() == old(self).reads_inverted(),
            final(self).writes_inverted() == old(self).writes_inverted(),
    {
        let ghost pre = *self;
        assert(pre == *old(self));
        proof {
            pre.lemma_wf();
        }
        self.add_read(index);
        let ghost mid = *self;
        if !self.component_writes_inverted {
            self.component_writes.insert(index);
        } else if index.0 < self.component_writes.len() {
            self.component_writes.remove(index);
        } else {
            proof {
                if self.component_writes@.contains(index.0) {
                    self.component_writes.lemma_members_below_len(index.0);
                }
            }
        }
            proof {
            assert forall|k: usize|
                #[trigger] self.writes(k) == (pre.writes(k) || k == index.0) && self.reads(k) == (
                pre.reads(k) || k == index.0) by {
                assert(mid.reads(k) == (pre.reads(k) || k == index.0));
                assert(mid.writes(k) == pre.writes(k));
                assert(self.reads(k) == mid.reads(k));
            }
            assert forall|k: usize| #[trigger] self.writes(k) implies self.reads(k) by {
                assert(pre.writes(k) ==> pre.reads(k));
            }
            assert forall|k: usize| #[trigger]
                self.reads(k) == (old(self).reads(k) || k == index.0) by {
                assert(mid.reads(k) == (pre.reads(k) || k == index.0));
                assert(self.reads(k) == mid.reads(k));
            }
        }
    }

    /// Adds archetypal (indirect) access to the component given by `index`.
    pub fn add_archetypal(&mut self, index: ComponentId)
        requires
            old(self).wf(),
            index.0 < usize::MAX,
        ensures
            final(self).wf(),
            forall|k: usize| #[trigger] final(self).reads(k) == old(self).reads(k),
            forall|k: usize| #[trigger] final(self).writes(k) == old(self).writes(k),
            final(self).archetypal_set() == old(self).archetypal_set().insert(index.0),
            final(self).reads_inverted() == old(self).reads_inverted(),
            final(self).writes_inverted() == old(self).writes_inverted(),
    {
        self.archetypal.insert(index);
        proof {
            assert forall|k: usize| #[trigger] self.writes(k) implies self.reads(k) by {
                assert(old(self).writes(k) ==> old(self).reads(k));
            }
        }
    }

    /// Sets this as having access to all components.
    pub fn read_all(&mut self)
        requires
            old(self).wf(),
        ensures
            final(self).wf(),
            forall|k: usize| #[trigger] final(self).reads(k),
            forall|k: usize| #[trigger] final(self).writes(k) == old(self).writes(k),
            final(self).archetypal_set() == old(self).archetypal_set(),
            final(self).reads_inverted(),
            final(self).writes_inverted() == old(self).writes_inverted(),
    {
        self.component_read_and_writes_inverted = true;
        self.component_read_and_writes.clear();
        proof {
            assert forall|k: usize| #[trigger] self.writes(k) implies self.reads(k) by {
                assert(old(self).writes(k) ==> old(self).reads(k));
            }
        }
    }

    /// Sets this as having mutable access to all components.
    pub fn write_all(&mut self)
        requires
            old(self).wf(),
        ensures
            final(self).wf(),
            forall|k: usize| #[trigger] final(self).reads(k),
            forall|k: usize| #[trigger] final(self).writes(k),
            final(self).archetypal_set() == old(self).archetypal_set(),
            final(self).reads_inverted(),
            final(self).writes_inverted(),
    {
        self.read_all();
        let ghost mid = *self;
        self.component_writes_inverted = true;
        self.component_writes.clear();
        proof {
            assert forall|k: usize| #[trigger] self.writes(k) by {
                assert(!Set::<usize>::empty().contains(k));
            }
            assert forall|k: usize| #[trigger] self.reads(k) by {
                assert(mid.reads(k));
            }
        }
    }

    /// Removes all access.
    pub fn clear(&mut self)
        requires
            old(self).wf(),
        ensures
            final(self).wf(),
            final(self).is_empty_spec(),
            forall|k: usize| !#[trigger] final(self).writes(k),
            !final(self).reads_inverted(),
            !final(self).writes_inverted(),
    {
        self.component_read_and_writes_inverted = false;
        self.component_writes_inverted = false;
        self.component_read_and_writes.clear();
        self.component_writes.clear();
        self.archetypal.clear();
    }

    /// Removes exclusive access to the component given by `index`.
    pub fn remove_write(&mut self, index: ComponentId)
        requires
            old(self).wf(),
            index.0 < usize::MAX,
        ensures
            final(self).wf(),
            forall|k: usize| #[trigger] final(self).reads(k) == old(self).reads(k),
            forall|k: usize| #[trigger] final(self).writes(k) == (old(self).writes(k) && k != index.0),
            final(self).archetypal_set() == old(self).archetypal_set(),
            final(self).reads_inverted() == old(self).reads_inverted(),
            final(self).writes_inverted() == old(self).writes_inverted(),
    {
        if self.component_writes_inverted {
            self.component_writes.insert(index);
        } else {
            self.component_writes.remove(index);
        }
        proof {
            assert forall|k: usize| #[trigger] self.writes(k) implies self.reads(k) by {
                assert(old(self).writes(k) ==> old(self).reads(k));
            }
        }
    }

    /// Removes access to the component given by `index`: neither read nor
    /// written any more.
    pub fn remove_read(&mut self, index: ComponentId)
        requires
            old(self).wf(),
            index.0 < usize::MAX,
        ensures
            final(self).wf(),
            forall|k: usize| #[trigger] final(self).reads(k) == (old(self).reads(k) && k != index.0),
            forall|k: usize| #[trigger] final(self).writes(k) == (old(self).writes(k) && k != index.0),
            final(self).archetypal_set() == old(self).archetypal_set(),
            final(self).reads_inverted() == old(self).reads_inverted(),
            final(self).writes_inverted() == old(self).writes_inverted(),
    {
        self.remove_write(index);
        let ghost mid = *self;
        if self.component_read_and_writes_inverted {
            self.component_read_and_writes.insert(index);
        } else {
            self.component_read_and_writes.remove(index);
        }
        proof {
            assert forall|k: usize| #[trigger] self.writes(k) implies self.reads(k) by {
                assert(mid.writes(k) ==> mid.reads(k));
            }
            assert forall|k: usize| #[trigger] self.reads(k) == (old(self).reads(k) && k != index.0) by {
                assert(mid.reads(k) == old(self).reads(k));
            }
            assert forall|k: usize| #[trigger] self.writes(k) == (old(self).writes(k) && k != index.0) by {
                assert(mid.writes(k) == (old(self).writes(k) && k != index.0));
            }
        }
    }

    /// Removes any access that would conflict with `other`: the reads (and
    /// writes) of the components `other` writes, and the writes of the
    /// components `other` reads.
    pub fn remove_conflicting_access(&mut self, other: &Access)
        requires
            old(self).wf(),
            other.wf(),
        ensures
            final(self).wf(),
            forall|k: usize| #[trigger] final(self).reads(k) == (old(self).reads(k) && !other.writes(k)),
            forall|k: usize| #[trigger] final(self).writes(k) == (old(self).writes(k) && !other.reads(k)),
            final(self).archetypal_set() == old(self).archetypal_set(),
            final(self).reads_inverted() == (old(self).reads_inverted() && !other.writes_inverted()),
            final(self).writes_inverted() == (old(self).writes_inverted() && !other.reads_inverted()),
    {
        invertible_difference_with(
            &mut self.component_read_and_writes,
            &mut self.component_read_and_writes_inverted,
            &other.component_writes,
            other.component_writes_inverted,
        );
        invertible_difference_with(
            &mut self.component_writes,
            &mut self.component_writes_inverted,
            &other.component_read_and_writes,
            other.component_read_and_writes_inverted,
        );
        proof {
            assert forall|k: usize| #[trigger] self.writes(k) implies self.reads(k) by {
                assert(old(self).writes(k) ==> old(self).reads(k));
                assert(other.writes(k) ==> other.reads(k));
            }
        }
    }

    /// Removes all writes.
    pub fn clear_writes(&mut self)
        requires
            old(self).wf(),
        ensures
            final(self).wf(),
            forall|k: usize| #[trigger] final(self).reads(k) == old(self).reads(k),
            forall|k: usize| !#[trigger] final(self).writes(k),
            final(self).archetypal_set() == old(self).archetypal_set(),
            final(self).reads_inverted() == old(self).reads_inverted(),
            !final(self).writes_inverted(),
    {
        self.component_writes_inverted = false;
        self.component_writes.clear();
    }

    /// Whether every component that `self` reads, `other` reads, and every
    /// component that `self` writes, `other` writes.
    pub open spec fn is_subset_spec(&self, other: &Access) -> bool {
        &&& forall|k: usize| #[trigger] self.reads(k) ==> other.reads(k)
        &&& forall|k: usize| #[trigger] self.writes(k) ==> other.writes(k)
    }

    /// Returns `true` if the access of `self` is a subset of the access of
    /// `other`: whatever `self` reads or writes, `other` does too.
    pub fn is_subset(&self, other: &Access) -> (r: bool)
        requires
            self.wf(),
            other.wf(),
        ensures
            r == self.is_subset_spec(other),
    {
        let reads = invertible_is_subset(
            &self.component_read_and_writes,
            self.component_read_and_writes_inverted,
            &other.component_read_and_writes,
            other.component_read_and_writes_inverted,
        );
        let writes = invertible_is_subset(
            &self.component_writes,
            self.component_writes_inverted,
            &other.component_writes,
            other.component_writes_inverted,
        );
        proof {
            if !reads {
                let k = choose|k: usize| #[trigger] inv_member(self.component_read_and_writes@, self.component_read_and_writes_inverted, k)
                    && !inv_member(other.component_read_and_writes@, other.component_read_and_writes_inverted, k);
                assert(self.reads(k) && !other.reads(k));
            }
            if !writes {
                let k = choose|k: usize| #[trigger] inv_member(self.component_writes@, self.component_writes_inverted, k)
                    && !inv_member(other.component_writes@, other.component_writes_inverted, k);
                assert(self.writes(k) && !other.writes(k));
            }
            if reads {
                assert forall|k: usize| #[trigger] self.reads(k) implies other.reads(k) by {
                    assert(inv_member(self.component_read_and_writes@, self.component_read_and_writes_inverted, k));
                }
            }
            if writes {
                assert forall|k: usize| #[trigger] self.writes(k) implies other.writes(k) by {
                    assert(inv_member(self.component_writes@, self.component_writes_inverted, k));
                }
            }
        }
        reads && writes
    }

    /// Returns `true` if this can access the component given by `index`.
    pub fn has_read(&self, index: ComponentId) -> (r: bool)
        ensures
            r == self.reads(index.0),
    {
        self.component_read_and_writes_inverted ^ self.component_read_and_writes.contains(index)
    }

    /// Returns `true` if this can exclusively access the component given by `index`.
    pub fn has_write(&self, index: ComponentId) -> (r: bool)
        ensures
            r == self.writes(index.0),
    {
        self.component_writes_inverted ^ self.component_writes.contains(index)
    }

    /// Returns `true` if this can access the component given by `index`
    /// without reading it.
    pub fn has_archetypal(&self, index: ComponentId) -> (r: bool)
        ensures
            r == self.archetypal_set().contains(index.0),
    {
        self.archetypal.contains(index)
    }

    /// Returns `true` if this can access any component.
    pub fn has_any_read(&self) -> (r: bool)
        requires
            self.wf(),
        ensures
            r == exists|k: usize| #[trigger] self.reads(k),
    {
        let r = self.component_read_and_writes_inverted
            || !self.component_read_and_writes.is_clear();
        proof {
            if self.component_read_and_writes_inverted {
                if self.component_read_and_writes@.contains(usize::MAX) {
                    self.component_read_and_writes.lemma_members_below_len(usize::MAX);
                }
                assert(self.reads(usize::MAX));
            } else if r {
                let k = choose|k: usize| self.component_read_and_writes@.contains(k);
                assert(self.component_read_and_writes@.contains(k));
                assert(self.reads(k));
            } else {
                assert forall|k: usize| !#[trigger] self.reads(k) by {
                    assert(!Set::<usize>::empty().contains(k));
                }
            }
        }
        r
    }

    /// Returns `true` if this can exclusively access any component.
    pub fn has_any_write(&self) -> (r: bool)
        requires
            self.wf(),
        ensures
            r == exists|k: usize| #[trigger] self.writes(k),
    {
        let r = self.component_writes_inverted || !self.component_writes.is_clear();
        proof {
            if self.component_writes_inverted {
                if self.component_writes@.contains(usize::MAX) {
                    self.component_writes.lemma_members_below_len(usize::MAX);
                }
                assert(self.writes(usize::MAX));
            } else if r {
                let k = choose|k: usize| self.component_writes@.contains(k);
                assert(self.component_writes@.contains(k));
                assert(self.writes(k));
            } else {
                assert forall|k: usize| !#[trigger] self.writes(k) by {
                    assert(!Set::<usize>::empty().contains(k));
                }
            }
        }
        r
    }

    /// Returns `true` if this has access to all components.
    pub fn has_read_all(&self) -> (r: bool)
        requires
            self.wf(),
        ensures
            r == forall|k: usize| #[trigger] self.reads(k),
    {
        let r = self.component_read_and_writes_inverted
            && self.component_read_and_writes.is_clear();
        proof {
            if !self.component_read_and_writes_inverted {
                if self.component_read_and_writes@.contains(usize::MAX) {
                    self.component_read_and_writes.lemma_members_below_len(usize::MAX);
                }
                assert(!self.reads(usize::MAX));
            } else if !r {
                let k = choose|k: usize| self.component_read_and_writes@.contains(k);
                assert(self.component_read_and_writes@.contains(k));
                assert(!self.reads(k));
            } else {
                assert forall|k: usize| #[trigger] self.reads(k) by {
                    assert(!Set::<usize>::empty().contains(k));
                }
            }
        }
        r
    }

    /// Returns `true` if this has exclusive access to all components.
    pub fn has_write_all(&self) -> (r: bool)
        requires
            self.wf(),
        ensures
            r == forall|k: usize| #[trigger] self.writes(k),
    {
        let r = self.component_writes_inverted && self.component_writes.is_clear();
        proof {
            if !self.component_writes_inverted {
                if self.component_writes@.contains(usize::MAX) {
                    self.component_writes.lemma_members_below_len(usize::MAX);
                }
                assert(!self.writes(usize::MAX));
            } else if !r {
                let k = choose|k: usize| self.component_writes@.contains(k);
                assert(self.component_writes@.contains(k));
                assert(!self.writes(k));
            } else {
                assert forall|k: usize| #[trigger] self.writes(k) by {
                    assert(!Set::<usize>::empty().contains(k));
                }
            }
        }
        r
    }

    /// Adds all access from `other`.
    pub fn extend(&mut self, other: &Access)
        requires
            old(self).wf(),
            other.wf(),
        ensures
            final(self).wf(),
            forall|k: usize| #[trigger] final(self).reads(k) == (old(self).reads(k) || other.reads(k)),
            forall|k: usize| #[trigger] final(self).writes(k) == (old(self).writes(k) || other.writes(k)),
            final(self).archetypal_set() == old(self).archetypal_set().union(other.archetypal_set()),
            final(self).reads_inverted() == (old(self).reads_inverted() || other.reads_inverted()),
            final(self).writes_inverted() == (old(self).writes_inverted()
                || other.writes_inverted()),
    {
        invertible_union_with(
            &mut self.component_read_and_writes,
            &mut self.component_read_and_writes_inverted,
            &other.component_read_and_writes,
            other.component_read_and_writes_inverted,
        );
        invertible_union_with(
            &mut self.component_writes,
            &mut self.component_writes_inverted,
            &other.component_writes,
            other.component_writes_inverted,
        );
        self.archetypal.union_with(&other.archetypal);
        proof {
            assert forall|k: usize| #[trigger] self.writes(k) implies self.reads(k) by {
                assert(old(self).writes(k) ==> old(self).reads(k));
                assert(other.writes(k) ==> other.reads(k));
            }
        }
    }

    /// Checks one direction of compatibility: that nothing `lhs_writes`
    /// describes is in what `rhs_reads` describes.
    fn writes_disjoint_from_reads(
        lhs_writes: &ComponentIdSet,
        lhs_writes_inverted: bool,
        rhs_reads: &ComponentIdSet,
        rhs_reads_inverted: bool,
    ) -> (r: bool)
        requires
            lhs_writes.wf(),
            rhs_reads.wf(),
        ensures
            r == forall|k: usize|
                !(#[trigger] inv_member(lhs_writes@, lhs_writes_inverted, k) && inv_member(
                    rhs_reads@,
                    rhs_reads_inverted,
                    k,
                )),
    {
        if lhs_writes_inverted {
            if rhs_reads_inverted {
                proof {
                    if lhs_writes@.contains(usize::MAX) {
                        lhs_writes.lemma_members_below_len(usize::MAX);
                    }
                    if rhs_reads@.contains(usize::MAX) {
                        rhs_reads.lemma_members_below_len(usize::MAX);
                    }
                    assert(inv_member(lhs_writes@, lhs_writes_inverted, usize::MAX));
                }
                false
            } else {
                let r = rhs_reads.is_subset(lhs_writes);
                proof {
                    if !r {
                        let k = choose|k: usize|
                            rhs_reads@.contains(k) && !lhs_writes@.contains(k);
                        assert(inv_member(lhs_writes@, lhs_writes_inverted, k));
                    }
                }
                r
            }
        } else {
            if rhs_reads_inverted {
                let r = lhs_writes.is_subset(rhs_reads);
                proof {
                    if !r {
                        let k = choose|k: usize|
                            lhs_writes@.contains(k) && !rhs_reads@.contains(k);
                        assert(inv_member(lhs_writes@, lhs_writes_inverted, k));
                    }
                }
                r
            } else {
                let r = lhs_writes.is_disjoint(rhs_reads);
                proof {
                    if !r {
                        let k = choose|k: usize|
                            lhs_writes@.contains(k) && rhs_reads@.contains(k);
                        assert(inv_member(lhs_writes@, lhs_writes_inverted, k));
                    }
                }
                r
            }
        }
    }

    /// Returns `true` if the access and `other` can be active at the same time.
    ///
    /// [`Access`] instances are incompatible if one can write an element that
    /// the other can read or write.
    pub fn is_compatible(&self, other: &Access) -> (r: bool)
        requires
            self.wf(),
            other.wf(),
        ensures
            r == self.compatible(other),
    {
        let a = Self::writes_disjoint_from_reads(
            &self.component_writes,
            self.component_writes_inverted,
            &other.component_read_and_writes,
            other.component_read_and_writes_inverted,
        );
        if !a {
            proof {
                let k = choose|k: usize|
                    #[trigger] inv_member(
                        self.component_writes@,
                        self.component_writes_inverted,
                        k,
                    ) && inv_member(
                        other.component_read_and_writes@,
                        other.component_read_and_writes_inverted,
                        k,
                    );
                assert(self.conflicts_on(other, k));
            }
            return false;
        }
        let b = Self::writes_disjoint_from_reads(
            &other.component_writes,
            other.component_writes_inverted,
            &self.component_read_and_writes,
            self.component_read_and_writes_inverted,
        );
        proof {
            if !b {
                let k = choose|k: usize|
                    #[trigger] inv_member(
                        other.component_writes@,
                        other.component_writes_inverted,
                        k,
                    ) && inv_member(
                        self.component_read_and_writes@,
                        self.component_read_and_writes_inverted,
                        k,
                    );
                assert(self.conflicts_on(other, k));
            } else {
                assert forall|k: usize| !#[trigger] self.conflicts_on(other, k) by {
                    assert(!(inv_member(
                        self.component_writes@,
                        self.component_writes_inverted,
                        k,
                    ) && inv_member(
                        other.component_read_and_writes@,
                        other.component_read_and_writes_inverted,
                        k,
                    )));
                    assert(!(inv_member(
                        other.component_writes@,
                        other.component_writes_inverted,
                        k,
                    ) && inv_member(
                        self.component_read_and_writes@,
                        self.component_read_and_writes_inverted,
                        k,
                    )));
                }
            }
        }
        b
    }

    /// The components that `lhs_writes` describes and `rhs_reads` also
    /// describes, or `None` when both are inverted (the overlap is unbounded).
    fn direction_conflicts(
        lhs_writes: &ComponentIdSet,
        lhs_writes_inverted: bool,
        rhs_reads: &ComponentIdSet,
        rhs_reads_inverted: bool,
    ) -> (r: Option<ComponentIdSet>)
        requires
            lhs_writes.wf(),
            rhs_reads.wf(),
        ensures
            r is None <==> (lhs_writes_inverted && rhs_reads_inverted),
            r matches Some(s) ==> s.wf() && forall|k: usize| #[trigger]
                s@.contains(k) == (inv_member(lhs_writes@, lhs_writes_inverted, k) && inv_member(
                    rhs_reads@,
                    rhs_reads_inverted,
                    k,
                )),
    {
        let ids = if lhs_writes_inverted {
            if rhs_reads_inverted {
                return None;
            }
            rhs_reads.difference(lhs_writes)
        } else if rhs_reads_inverted {
            lhs_writes.difference(rhs_reads)
        } else {
            lhs_writes.intersection(rhs_reads)
        };
        proof {
            assert forall|i: int| 0 <= i < ids@.len() implies ids@[i].0 < usize::MAX by {
                let k = ids@[i].0;
                assert(0 <= i < ids@.len() && ids@[i].0 == k);
                if lhs_writes_inverted {
                    assert(rhs_reads@.difference(lhs_writes@).contains(k));
                    rhs_reads.lemma_members_below_len(k);
                } else if rhs_reads_inverted {
                    assert(lhs_writes@.difference(rhs_reads@).contains(k));
                    lhs_writes.lemma_members_below_len(k);
                } else {
                    assert(lhs_writes@.intersect(rhs_reads@).contains(k));
                    lhs_writes.lemma_members_below_len(k);
                }
            }
        }
        let s = ComponentIdSet::from_iter(ids.as_slice());
        proof {
            assert forall|k: usize| #[trigger]
                s@.contains(k) == (inv_member(lhs_writes@, lhs_writes_inverted, k) && inv_member(
                    rhs_reads@,
                    rhs_reads_inverted,
                    k,
                )) by {
                let target = if lhs_writes_inverted {
                    rhs_reads@.difference(lhs_writes@)
                } else if rhs_reads_inverted {
                    lhs_writes@.difference(rhs_reads@)
                } else {
                    lhs_writes@.intersect(rhs_reads@)
                };
                assert(enumerates(ids@, target));
                if s@.contains(k) {
                    let i = choose|i: int| 0 <= i < ids@.len() && ids@[i].0 == k;
                    assert(0 <= i < ids@.len() && ids@[i].0 == k);
                    assert(target.contains(k));
                }
                if target.contains(k) {
                    assert(exists|i: int| 0 <= i < ids@.len() && ids@[i].0 == k);
                    assert(s@.contains(k));
                }
            }
        }
        Some(s)
    }

    /// Returns the elements that the access and `other` cannot access at the same time.
    pub fn get_conflicts(&self, other: &Access) -> (r: AccessConflicts)
        requires
            self.wf(),
            other.wf(),
        ensures
            r.wf(),
            r is All <==> self.conflicts_unbounded(other),
            r matches AccessConflicts::Individual(s) ==> s@ == self.conflict_set(other),
    {
        let first = Self::direction_conflicts(
            &self.component_writes,
            self.component_writes_inverted,
            &other.component_read_and_writes,
            other.component_read_and_writes_inverted,
        );
        let second = Self::direction_conflicts(
            &other.component_writes,
            other.component_writes_inverted,
            &self.component_read_and_writes,
            self.component_read_and_writes_inverted,
        );
        match (first, second) {
            (Some(mut a), Some(b)) => {
                a.union_with(&b);
                proof {
                    assert(a@ =~= self.conflict_set(other));
                }
                AccessConflicts::Individual(a)
            },
            _ => AccessConflicts::All,
        }
    }

    /// `v` lists the component access of `self`: its first `n` entries are
    /// the read components in increasing order, exclusive when also written,
    /// shared otherwise; the rest are the archetypal components that are not
    /// read, in increasing order.
    pub open spec fn is_access_listing(&self, v: Seq<ComponentAccessKind>, n: int) -> bool {
        let rs = Set::new(|k: usize| self.reads(k));
        &&& 0 <= n <= v.len()
        &&& enumerates(kind_ids(v.subrange(0, n)), rs)
        &&& forall|i: int|
            0 <= i < n ==> #[trigger] v[i] == if self.writes(access_kind_id(v[i]).0) {
                ComponentAccessKind::Exclusive(access_kind_id(v[i]))
            } else {
                ComponentAccessKind::Shared(access_kind_id(v[i]))
            }
        &&& enumerates(kind_ids(v.subrange(n, v.len() as int)), self.archetypal_set().difference(rs))
        &&& forall|i: int|
            n <= i < v.len() ==> #[trigger] v[i] == ComponentAccessKind::Archetypal(
                access_kind_id(v[i]),
            )
    }

    /// Lists the component access: first each read component in increasing
    /// order (exclusive when also written), then each archetypal component that
    /// is neither read nor written. Fails when the reads are unbounded.
    pub fn try_iter_access(&self) -> (r: Result<Vec<ComponentAccessKind>, UnboundedAccessError>)
        requires
            self.wf(),
        ensures
            r is Err <==> self.reads_inverted(),
            r matches Err(e) ==> e.writes_inverted == self.writes_inverted()
                && e.read_and_writes_inverted == self.reads_inverted(),
            r matches Ok(v) ==> exists|n: int| self.is_access_listing(v@, n),
    {
        if self.component_read_and_writes_inverted {
            return Err(
                UnboundedAccessError {
                    writes_inverted: self.component_writes_inverted,
                    read_and_writes_inverted: self.component_read_and_writes_inverted,
                },
            );
        }
        let reads = self.component_read_and_writes.iter();
        let mut out: Vec<ComponentAccessKind> = Vec::new();
        proof {
            self.lemma_wf();
        }
        let mut i: usize = 0;
        while i < reads.len()
            invariant
                0 <= i <= reads@.len(),
                out@.len() == i,
                !self.component_writes_inverted,
                forall|j: int|
                    0 <= j < i ==> #[trigger] out@[j] == if self.writes(reads@[j].0) {
                        ComponentAccessKind::Exclusive(reads@[j])
                    } else {
                        ComponentAccessKind::Shared(reads@[j])
                    },
            decreases reads@.len() - i,
        {
            let id = reads[i];
            if self.component_writes.contains(id) {
                out.push(ComponentAccessKind::Exclusive(id));
            } else {
                out.push(ComponentAccessKind::Shared(id));
            }
            i = i + 1;
        }
        let ghost n = out@.len() as int;
        let mut rest = self.archetypal.duplicate();
        rest.difference_with(&self.component_read_and_writes);
        let arch = rest.iter();
        let mut j: usize = 0;
        while j < arch.len()
            invariant
                0 <= j <= arch@.len(),
                out@.len() == n + j,
                n == reads@.len(),
                forall|a: int|
                    0 <= a < n ==> #[trigger] out@[a] == if self.writes(reads@[a].0) {
                        ComponentAccessKind::Exclusive(reads@[a])
                    } else {
                        ComponentAccessKind::Shared(reads@[a])
                    },
                forall|a: int|
                    0 <= a < j ==> #[trigger] out@[n + a] == ComponentAccessKind::Archetypal(
                        arch@[a],
                    ),
            decreases arch@.len() - j,
        {
            out.push(ComponentAccessKind::Archetypal(arch[j]));
            j = j + 1;
        }
        proof {
            let v = out@;
            let first = kind_ids(v.subrange(0, n));
            let second = kind_ids(v.subrange(n, v.len() as int));
            assert(first =~= reads@);
            assert(second =~= arch@) by {
                assert forall|a: int| 0 <= a < arch@.len() implies second[a] == arch@[a] by {
                    assert(v[n + a] == ComponentAccessKind::Archetypal(arch@[a]));
                }
            }
            assert(Set::new(|k: usize| self.reads(k)) =~= self.component_read_and_writes@);
            assert forall|a: int| 0 <= a < n implies #[trigger] v[a] == if self.writes(
                access_kind_id(v[a]).0,
            ) {
                ComponentAccessKind::Exclusive(access_kind_id(v[a]))
            } else {
                ComponentAccessKind::Shared(access_kind_id(v[a]))
            } by {
                assert(v[a] == out@[a]);
            }
            assert forall|a: int| n <= a < v.len() implies #[trigger] v[a]
                == ComponentAccessKind::Archetypal(access_kind_id(v[a])) by {
                assert(v[n + (a - n)] == ComponentAccessKind::Archetypal(arch@[a - n]));
            }
            let rs = Set::new(|k: usize| self.reads(k));
            assert(enumerates(first, rs));
            assert(self.archetypal_set().difference(rs) =~= rest@);
            assert(enumerates(second, self.archetypal_set().difference(rs)));
            assert(self.is_access_listing(v, n));
            assert(exists|m: int| self.is_access_listing(out@, m));
        }
        let ghost vv = out@;
        let r: Result<Vec<ComponentAccessKind>, UnboundedAccessError> = Ok(out);
        assert(r matches Ok(w) ==> w@ == vv);
        assert(r matches Ok(w) ==> exists|m: int| self.is_access_listing(w@, m));
        r
    }
}

/// The components that a list of access kinds refers to, in order.
pub open spec fn kind_ids(s: Seq<ComponentAccessKind>) -> Seq<ComponentId> {
    s.map_values(|a: ComponentAccessKind| access_kind_id(a))
}

/// The component that an access kind refers to.
pub open spec fn access_kind_id(a: ComponentAccessKind) -> ComponentId {
    match a {
        ComponentAccessKind::Archetypal(id) => id,
        ComponentAccessKind::Shared(id) => id,
        ComponentAccessKind::Exclusive(id) => id,
    }
}

impl Clone for Access {
    fn clone(&self) -> (r: Self)
        ensures
            forall|k: usize| #[trigger] r.reads(k) == self.reads(k),
            forall|k: usize| #[trigger] r.writes(k) == self.writes(k),
            r.archetypal_set() == self.archetypal_set(),
            r.reads_inverted() == self.reads_inverted(),
            r.writes_inverted() == self.writes_inverted(),
            self.wf() ==> r.wf(),
    {
        let r = Access {
            component_read_and_writes: self.component_read_and_writes.clone(),
            component_writes: self.component_writes.clone(),
            component_read_and_writes_inverted: self.component_read_and_writes_inverted,
            component_writes_inverted: self.component_writes_inverted,
            archetypal: self.archetypal.clone(),
        };
        proof {
            if self.wf() {
                assert forall|k: usize| #[trigger] r.writes(k) implies r.reads(k) by {
                    assert(self.writes(k) ==> self.reads(k));
                }
            }
        }
        r
    }
}

impl Default for Access {
    fn default() -> (r: Self)
        ensures
            r.wf(),
            r.is_empty_spec(),
            forall|k: usize| !#[trigger] r.writes(k),
            !r.reads_inverted(),
            !r.writes_inverted(),
    {
        Access::new()
    }
}

/// Records how two accesses conflict with each other.
#[derive(Debug, PartialEq, Eq)]
pub enum AccessConflicts {
    /// Conflict is for all indices.
    All,
    /// There is a conflict for a subset of indices.
    Individual(ComponentIdSet),
}

impl AccessConflicts {
    /// Well-formedness of the listed conflicts.
    pub open spec fn wf(&self) -> bool {
        match self {
            AccessConflicts::All => true,
            AccessConflicts::Individual(s) => s.wf(),
        }
    }

    /// Whether the conflicts include component `k`.
    pub open spec fn includes(&self, k: usize) -> bool {
        match self {
            AccessConflicts::All => true,
            AccessConflicts::Individual(s) => s@.contains(k),
        }
    }

    /// Whether there is no conflict.
    pub open spec fn is_empty_spec(&self) -> bool {
        match self {
            AccessConflicts::All => false,
            AccessConflicts::Individual(s) => s@ == Set::<usize>::empty(),
        }
    }

    /// No conflicts.
    pub fn empty() -> (r: AccessConflicts)
        ensures
            r.wf(),
            r.is_empty_spec(),
            r matches AccessConflicts::Individual(s) && s.bit_len() == 0,
    {
        AccessConflicts::Individual(ComponentIdSet::new())
    }

    /// Conflicts on exactly the given components.
    pub fn from_ids(ids: Vec<ComponentId>) -> (r: AccessConflicts)
        requires
            forall|i: int| 0 <= i < ids@.len() ==> ids@[i].0 < usize::MAX,
        ensures
            r.wf(),
            r matches AccessConflicts::Individual(s) && s@ == crate::component_id_set::ids_set(
                ids@,
            ),
    {
        AccessConflicts::Individual(ComponentIdSet::from_iter(ids.as_slice()))
    }

    /// Returns true if there are no conflicts present.
    pub fn is_empty(&self) -> (r: bool)
        ensures
            r == self.is_empty_spec(),
    {
        match self {
            AccessConflicts::All => false,
            AccessConflicts::Individual(s) => s.is_clear(),
        }
    }

    /// Adds the conflicts of `other`.
    pub fn add(&mut self, other: &AccessConflicts)
        requires
            old(self).wf(),
            other.wf(),
        ensures
            final(self).wf(),
            *final(self) is All <==> (*old(self) is All || *other is All),
            forall|k: usize| #[trigger]
                final(self).includes(k) == (old(self).includes(k) || other.includes(k)),
    {
        match other {
            AccessConflicts::All => {
                *self = AccessConflicts::All;
            },
            AccessConflicts::Individual(o) => {
                match self {
                    AccessConflicts::All => {},
                    AccessConflicts::Individual(s) => {
                        s.union_with(o);
                    },
                }
            },
        }
    }
}

/// A set of `With` and `Without` filters joined by AND.
#[derive(Debug, PartialEq, Eq)]
pub struct AccessFilters {
    /// Components that must be present.
    pub with: ComponentIdSet,
    /// Components that must be absent.
    pub without: ComponentIdSet,
}

impl AccessFilters {
    /// Well-formedness of both sets.
    pub open spec fn wf(&self) -> bool {
        self.with.wf() && self.without.wf()
    }

    /// Whether no entity can match both `self` and `other`: one requires a
    /// component the other excludes.
    pub open spec fn ruled_out_by_spec(&self, other: &AccessFilters) -> bool {
        !self.with@.disjoint(other.without@) || !self.without@.disjoint(other.with@)
    }

    /// Creates filters that match every entity.
    pub fn new() -> (r: AccessFilters)
        ensures
            r.wf(),
            r.with@ == Set::<usize>::empty(),
            r.without@ == Set::<usize>::empty(),
    {
        AccessFilters { with: ComponentIdSet::new(), without: ComponentIdSet::new() }
    }

    /// Returns whether no entity can match both `self` and `other`.
    pub fn is_ruled_out_by(&self, other: &AccessFilters) -> (r: bool)
        ensures
            r == self.ruled_out_by_spec(other),
    {
        !self.with.is_disjoint(&other.without) || !self.without.is_disjoint(&other.with)
    }
}

impl Clone for AccessFilters {
    fn clone(&self) -> (r: Self)
        ensures
            r.with@ == self.with@,
            r.without@ == self.without@,
            r.with.bit_len() == self.with.bit_len(),
            r.without.bit_len() == self.without.bit_len(),
            self.wf() ==> r.wf(),
    {
        AccessFilters { with: self.with.clone(), without: self.without.clone() }
    }
}

impl Default for AccessFilters {
    fn default() -> (r: Self)
        ensures
            r.wf(),
            r.with@ == Set::<usize>::empty(),
            r.without@ == Set::<usize>::empty(),
    {
        AccessFilters::new()
    }
}

/// The index `a * m + b` of a row-major product lies below `i * m` for rows
/// `a` before row `i`.
proof fn lemma_product_index(a: int, b: int, i: int, m: int)
    by (nonlinear_arith)
    requires
        0 <= a < i,
        0 <= b < m,
    ensures
        0 <= a * m + b < i * m,
{
}

/// An [`Access`] that has been filtered to include and exclude certain
/// combinations of elements.
///
/// Used internally to statically check if queries are disjoint.
///
/// Subtle: a `read` or `write` in `access` should not be considered to imply a
/// `with` access.
///
/// The filters are a disjunction of [`AccessFilters`], each a conjunction of
/// `With` and `Without` terms.
#[derive(Debug, PartialEq, Eq)]
pub struct FilteredAccess {
    access: Access,
    required: ComponentIdSet,
    filter_sets: Vec<AccessFilters>,
}

impl FilteredAccess {
    /// The underlying unfiltered access.
    pub closed spec fn access_spec(&self) -> Access {
        self.access
    }

    /// The components an entity must have to match.
    pub closed spec fn required_set(&self) -> Set<usize> {
        self.required@
    }

    /// The filter sets, joined by OR.
    pub closed spec fn filters(&self) -> Seq<AccessFilters> {
        self.filter_sets@
    }

    /// Well-formedness of every part.
    pub closed spec fn wf(&self) -> bool {
        &&& self.access.wf()
        &&& self.required.wf()
        &&& forall|i: int| 0 <= i < self.filter_sets@.len() ==> (#[trigger] self.filter_sets@[i]).wf()
    }

    /// Whether the filters guarantee that no entity matches both `self` and
    /// `other`: every filter set of one rules out every filter set of the other.
    pub open spec fn filters_disjoint(&self, other: &FilteredAccess) -> bool {
        forall|i: int, j: int|
            #![trigger self.filters()[i], other.filters()[j]]
            0 <= i < self.filters().len() && 0 <= j < other.filters().len() ==> self.filters()[i].ruled_out_by_spec(&other.filters()[j])
    }

    /// Whether `self` and `other` can be active at the same time: their access
    /// is compatible or their filters are disjoint.
    pub open spec fn compatible(&self, other: &FilteredAccess) -> bool {
        self.access_spec().compatible(&other.access_spec()) || self.filters_disjoint(other)
    }

    /// Whether the conflicts of `self` with `other` cover component `k`.
    pub open spec fn conflict_includes(&self, other: &FilteredAccess, k: usize) -> bool {
        &&& !self.compatible(other)
        &&& (self.access_spec().conflicts_unbounded(&other.access_spec())
            || self.access_spec().conflicts_on(&other.access_spec(), k))
    }

    /// Whether the conflicts of `self` with `other` cover every component but
    /// finitely many.
    pub open spec fn conflict_unbounded(&self, other: &FilteredAccess) -> bool {
        !self.compatible(other) && self.access_spec().conflicts_unbounded(&other.access_spec())
    }

    /// Returns a `FilteredAccess` which has no access and matches everything.
    /// This is the equivalent of a `TRUE` logic atom.
    pub fn matches_everything() -> (r: FilteredAccess)
        ensures
            r.wf(),
            r.access_spec().is_empty_spec(),
            forall|k: usize| !#[trigger] r.access_spec().writes(k),
            !r.access_spec().reads_inverted(),
            !r.access_spec().writes_inverted(),
            r.required_set() == Set::<usize>::empty(),
            r.filters().len() == 1,
            r.filters()[0].with@ == Set::<usize>::empty(),
            r.filters()[0].without@ == Set::<usize>::empty(),
            r@ == matches_everything_view(),
    {
        let mut filter_sets = Vec::new();
        filter_sets.push(AccessFilters::new());
        let r = FilteredAccess { access: Access::new(), required: ComponentIdSet::new(), filter_sets };
        proof {
            lemma_view_ext(r, matches_everything_view());
        }
        r
    }

    /// Returns a reference to the underlying unfiltered access.
    pub fn access(&self) -> (r: &Access)
        ensures
            *r == self.access_spec(),
            self.wf() ==> r.wf(),
    {
        &self.access
    }

    /// Returns the components an entity must have.
    pub fn required(&self) -> (r: &ComponentIdSet)
        ensures
            r@ == self.required_set(),
    {
        &self.required
    }

    /// Returns the filter sets, joined by OR.
    pub fn filter_sets(&self) -> (r: &Vec<AccessFilters>)
        ensures
            r@ == self.filters(),
    {
        &self.filter_sets
    }

    /// Returns a mutable reference to the underlying unfiltered access.
    pub fn access_mut(&mut self) -> (r: &mut Access)
        ensures
            *r == old(self).access_spec(),
            old(self).wf() ==> r.wf(),
            final(self).access_spec() == *final(r),
            final(self).required_set() == old(self).required_set(),
            final(self).filters() == old(self).filters(),
            old(self).wf() && final(r).wf() ==> final(self).wf(),
    {
        &mut self.access
    }

    /// A filtered access has at most `usize::MAX` filter sets.
    pub proof fn lemma_filters_len_bound(&self)
        ensures
            self.filters().len() <= usize::MAX,
    {
        assert(self.filter_sets.len() == self.filter_sets@.len());
    }

    /// Forgets the components an entity must have.
    pub(crate) fn clear_required(&mut self)
        requires
            old(self).wf(),
        ensures
            final(self).wf(),
            final(self)@ == (FilteredAccessView { required: Set::empty(), ..old(self)@ }),
    {
        self.required.clear();
        proof {
            lemma_view_ext(*self, FilteredAccessView { required: Set::empty(), ..old(self)@ });
        }
    }

    /// Adds `index` to the components an entity must have.
    pub fn add_required(&mut self, index: ComponentId)
        requires
            old(self).wf(),
            index.0 < usize::MAX,
        ensures
            final(self).wf(),
            final(self).access_spec() == old(self).access_spec(),
            final(self).required_set() == old(self).required_set().insert(index.0),
            final(self).filters() == old(self).filters(),
    {
        self.required.insert(index);
    }

    /// Adds a `With` filter: corresponds to a conjunction (AND) operation.
    ///
    /// Suppose we begin with `Or<(With<A>, With<B>)>`, which is represented by an array of two `AccessFilters` instances.
    /// Adding `AND With<C>` via this method transforms it into the equivalent of `Or<((With<A>, With<C>), (With<B>, With<C>))>`.
    pub fn and_with(&mut self, index: ComponentId)
        requires
            old(self).wf(),
            index.0 < usize::MAX,
        ensures
            final(self).wf(),
            final(self).access_spec() == old(self).access_spec(),
            final(self).required_set() == old(self).required_set(),
            final(self).filters().len() == old(self).filters().len(),
            forall|i: int|
                0 <= i < old(self).filters().len() ==> (#[trigger] final(self).filters()[i]).with@
                    == old(self).filters()[i].with@.insert(index.0) && final(self).filters()[i].without@
                    == old(self).filters()[i].without@,
            final(self)@ == with_added_view(old(self)@, index.0),
    {
        let mut i: usize = 0;
        while i < self.filter_sets.len()
            invariant
                0 <= i <= self.filter_sets@.len(),
                self.filter_sets@.len() == old(self).filter_sets@.len(),
                self.access == old(self).access,
                self.required == old(self).required,
                index.0 < usize::MAX,
                forall|j: int| 0 <= j < self.filter_sets@.len() ==> (#[trigger] self.filter_sets@[j]).wf(),
                forall|j: int|
                    0 <= j < i ==> (#[trigger] self.filter_sets@[j]).with@ == old(
                        self,
                    ).filter_sets@[j].with@.insert(index.0) && self.filter_sets@[j].without@ == old(
                        self,
                    ).filter_sets@[j].without@,
                forall|j: int| i <= j < self.filter_sets@.len() ==> #[trigger] self.filter_sets@[j] == old(self).filter_sets@[j],
            decreases self.filter_sets@.len() - i,
        {
            self.filter_sets[i].with.insert(index);
            i = i + 1;
        }
        proof {
            lemma_view_ext(*self, with_added_view(old(self)@, index.0));
        }
    }

    /// Adds a `Without` filter: corresponds to a conjunction (AND) operation.
    pub fn and_without(&mut self, index: ComponentId)
        requires
            old(self).wf(),
            index.0 < usize::MAX,
        ensures
            final(self).wf(),
            final(self).access_spec() == old(self).access_spec(),
            final(self).required_set() == old(self).required_set(),
            final(self).filters().len() == old(self).filters().len(),
            forall|i: int|
                0 <= i < old(self).filters().len() ==> (#[trigger] final(self).filters()[i]).without@
                    == old(self).filters()[i].without@.insert(index.0) && final(self).filters()[i].with@
                    == old(self).filters()[i].with@,
            final(self)@ == without_added_view(old(self)@, index.0),
    {
        let mut i: usize = 0;
        while i < self.filter_sets.len()
            invariant
                0 <= i <= self.filter_sets@.len(),
                self.filter_sets@.len() == old(self).filter_sets@.len(),
                self.access == old(self).access,
                self.required == old(self).required,
                index.0 < usize::MAX,
                forall|j: int| 0 <= j < self.filter_sets@.len() ==> (#[trigger] self.filter_sets@[j]).wf(),
                forall|j: int|
                    0 <= j < i ==> (#[trigger] self.filter_sets@[j]).without@ == old(
                        self,
                    ).filter_sets@[j].without@.insert(index.0) && self.filter_sets@[j].with@ == old(
                        self,
                    ).filter_sets@[j].with@,
                forall|j: int| i <= j < self.filter_sets@.len() ==> #[trigger] self.filter_sets@[j] == old(self).filter_sets@[j],
            decreases self.filter_sets@.len() - i,
        {
            self.filter_sets[i].without.insert(index);
            i = i + 1;
        }
        proof {
            lemma_view_ext(*self, without_added_view(old(self)@, index.0));
        }
    }

    /// Adds access to the component given by `index`; the component becomes
    /// required and a `With` filter for it is added.
    pub fn add_read(&mut self, index: ComponentId)
        requires
            old(self).wf(),
            index.0 < usize::MAX,
        ensures
            final(self).wf(),
            forall|k: usize| #[trigger] final(self).access_spec().reads(k) == (old(self).access_spec().reads(k) || k == index.0),
            forall|k: usize| #[trigger] final(self).access_spec().writes(k) == old(self).access_spec().writes(k),
            final(self).access_spec().archetypal_set() == old(self).access_spec().archetypal_set(),
            final(self).access_spec().reads_inverted() == old(self).access_spec().reads_inverted(),
            final(self).access_spec().writes_inverted() == old(self).access_spec().writes_inverted(),
            final(self).required_set() == old(self).required_set().insert(index.0),
            final(self).filters().len() == old(self).filters().len(),
            forall|i: int|
                0 <= i < old(self).filters().len() ==> (#[trigger] final(self).filters()[i]).with@
                    == old(self).filters()[i].with@.insert(index.0) && final(self).filters()[i].without@
                    == old(self).filters()[i].without@,
            final(self)@ == read_added_view(old(self)@, index.0),
    {
        self.access.add_read(index);
        self.add_required(index);
        self.and_with(index);
        proof {
            lemma_view_ext(*self, read_added_view(old(self)@, index.0));
        }
    }

    /// Adds exclusive access to the component given by `index`; the component
    /// becomes required and a `With` filter for it is added.
    pub fn add_write(&mut self, index: ComponentId)
        requires
            old(self).wf(),
            index.0 < usize::MAX,
        ensures
            final(self).wf(),
            forall|k: usize| #[trigger] final(self).access_spec().reads(k) == (old(self).access_spec().reads(k) || k == index.0),
            forall|k: usize| #[trigger] final(self).access_spec().writes(k) == (old(self).access_spec().writes(k) || k == index.0),
            final(self).access_spec().archetypal_set() == old(self).access_spec().archetypal_set(),
            final(self).access_spec().reads_inverted() == old(self).access_spec().reads_inverted(),
            final(self).access_spec().writes_inverted() == old(self).access_spec().writes_inverted(),
            final(self).required_set() == old(self).required_set().insert(index.0),
            final(self).filters().len() == old(self).filters().len(),
            forall|i: int|
                0 <= i < old(self).filters().len() ==> (#[trigger] final(self).filters()[i]).with@
                    == old(self).filters()[i].with@.insert(index.0) && final(self).filters()[i].without@
                    == old(self).filters()[i].without@,
            final(self)@ == write_added_view(old(self)@, index.0),
    {
        self.access.add_write(index);
        self.add_required(index);
        self.and_with(index);
        proof {
            lemma_view_ext(*self, write_added_view(old(self)@, index.0));
        }
    }

    /// Appends the filter sets of `other` as further alternatives (OR).
    pub fn append_or(&mut self, other: &FilteredAccess)
        requires
            old(self).wf(),
            other.wf(),
        ensures
            final(self).wf(),
            final(self).access_spec() == old(self).access_spec(),
            final(self).required_set() == old(self).required_set(),
            final(self).filters().len() == old(self).filters().len() + other.filters().len(),
            forall|i: int|
                0 <= i < old(self).filters().len() ==> #[trigger] final(self).filters()[i] == old(self).filters()[i],
            forall|j: int|
                0 <= j < other.filters().len() ==> (#[trigger] final(self).filters()[old(self).filters().len() + j]).with@
                    == other.filters()[j].with@ && final(self).filters()[old(self).filters().len() + j].without@
                    == other.filters()[j].without@,
            final(self)@ == or_appended_view(old(self)@, other@),
    {
        let mut j: usize = 0;
        while j < other.filter_sets.len()
            invariant
                0 <= j <= other.filter_sets@.len(),
                self.filter_sets@.len() == old(self).filter_sets@.len() + j,
                self.access == old(self).access,
                self.required == old(self).required,
                other.wf(),
                forall|i: int| 0 <= i < self.filter_sets@.len() ==> (#[trigger] self.filter_sets@[i]).wf(),
                forall|i: int|
                    0 <= i < old(self).filter_sets@.len() ==> #[trigger] self.filter_sets@[i] == old(self).filter_sets@[i],
                forall|a: int|
                    0 <= a < j ==> (#[trigger] self.filter_sets@[old(self).filter_sets@.len() + a]).with@
                        == other.filter_sets@[a].with@ && self.filter_sets@[old(self).filter_sets@.len() + a].without@
                        == other.filter_sets@[a].without@,
            decreases other.filter_sets@.len() - j,
        {
            assert(other.filter_sets@[j as int].wf());
            let f = other.filter_sets[j].clone();
            self.filter_sets.push(f);
            j = j + 1;
        }
        proof {
            let v = or_appended_view(old(self)@, other@);
            assert forall|x: int| 0 <= x < v.filters.len() implies (#[trigger] self.filters()[x]).with@
                == v.filters[x].0 && self.filters()[x].without@ == v.filters[x].1 by {
                if x >= old(self).filters().len() {
                    let j = x - old(self).filters().len();
                    assert(self.filters()[old(self).filters().len() + j].with@ == other.filters()[j].with@);
                }
            }
            lemma_view_ext(*self, v);
        }
    }

    /// Adds the unfiltered access of `other`.
    pub fn extend_access(&mut self, other: &FilteredAccess)
        requires
            old(self).wf(),
            other.wf(),
        ensures
            final(self).wf(),
            forall|k: usize| #[trigger] final(self).access_spec().reads(k) == (old(self).access_spec().reads(k) || other.access_spec().reads(k)),
            forall|k: usize| #[trigger] final(self).access_spec().writes(k) == (old(self).access_spec().writes(k) || other.access_spec().writes(k)),
            final(self).access_spec().archetypal_set() == old(self).access_spec().archetypal_set().union(other.access_spec().archetypal_set()),
            final(self).access_spec().reads_inverted() == (old(self).access_spec().reads_inverted() || other.access_spec().reads_inverted()),
            final(self).access_spec().writes_inverted() == (old(self).access_spec().writes_inverted() || other.access_spec().writes_inverted()),
            final(self).required_set() == old(self).required_set(),
            final(self).filters() == old(self).filters(),
            final(self)@ == access_extended_view(old(self)@, other@),
    {
        self.access.extend(&other.access);
        proof {
            lemma_view_ext(*self, access_extended_view(old(self)@, other@));
        }
    }

    /// Adds all access and filters from `other`: the access and the required
    /// components are joined, and the filters become the conjunction of both
    /// (every pair of alternatives, `self`'s outer and `other`'s inner).
    pub fn extend(&mut self, other: &FilteredAccess)
        requires
            old(self).wf(),
            other.wf(),
            old(self).filters().len() * other.filters().len() <= usize::MAX,
        ensures
            final(self).wf(),
            forall|k: usize| #[trigger] final(self).access_spec().reads(k) == (old(self).access_spec().reads(k) || other.access_spec().reads(k)),
            forall|k: usize| #[trigger] final(self).access_spec().writes(k) == (old(self).access_spec().writes(k) || other.access_spec().writes(k)),
            final(self).access_spec().archetypal_set() == old(self).access_spec().archetypal_set().union(other.access_spec().archetypal_set()),
            final(self).access_spec().reads_inverted() == (old(self).access_spec().reads_inverted() || other.access_spec().reads_inverted()),
            final(self).access_spec().writes_inverted() == (old(self).access_spec().writes_inverted() || other.access_spec().writes_inverted()),
            final(self).required_set() == old(self).required_set().union(other.required_set()),
            final(self).filters().len() == old(self).filters().len() * other.filters().len(),
            forall|i: int, j: int|
                0 <= i < old(self).filters().len() && 0 <= j < other.filters().len() ==> {
                    let f = #[trigger] final(self).filters()[i * other.filters().len() + j];
                    &&& f.with@ == old(self).filters()[i].with@.union(other.filters()[j].with@)
                    &&& f.without@ == old(self).filters()[i].without@.union(other.filters()[j].without@)
                },
            final(self)@ == extended_view(old(self)@, other@),
    {
        self.access.extend(&other.access);
        self.required.union_with(&other.required);
        let n = self.filter_sets.len();
        let m = other.filter_sets.len();
        let mut new_filters: Vec<AccessFilters> = Vec::new();
        let mut i: usize = 0;
        while i < n
            invariant
                0 <= i <= n,
                n == self.filter_sets@.len(),
                n == old(self).filter_sets@.len(),
                m == other.filter_sets@.len(),
                n * m <= usize::MAX,
                self.filter_sets == old(self).filter_sets,
                other.wf(),
                forall|a: int| 0 <= a < n ==> (#[trigger] self.filter_sets@[a]).wf(),
                new_filters@.len() == i * m,
                forall|a: int| 0 <= a < new_filters@.len() ==> (#[trigger] new_filters@[a]).wf(),
                forall|a: int, b: int|
                    0 <= a < i && 0 <= b < m ==> {
                        let f = #[trigger] new_filters@[a * m + b];
                        &&& f.with@ == self.filter_sets@[a].with@.union(other.filter_sets@[b].with@)
                        &&& f.without@ == self.filter_sets@[a].without@.union(other.filter_sets@[b].without@)
                    },
            decreases n - i,
        {
            let mut j: usize = 0;
            while j < m
                invariant
                    0 <= i < n,
                    0 <= j <= m,
                    n == self.filter_sets@.len(),
                    m == other.filter_sets@.len(),
                    n * m <= usize::MAX,
                    other.wf(),
                    forall|a: int| 0 <= a < n ==> (#[trigger] self.filter_sets@[a]).wf(),
                    new_filters@.len() == i * m + j,
                    forall|a: int| 0 <= a < new_filters@.len() ==> (#[trigger] new_filters@[a]).wf(),
                    forall|a: int, b: int|
                        0 <= a < i && 0 <= b < m ==> {
                            let f = #[trigger] new_filters@[a * m + b];
                            &&& f.with@ == self.filter_sets@[a].with@.union(other.filter_sets@[b].with@)
                            &&& f.without@ == self.filter_sets@[a].without@.union(other.filter_sets@[b].without@)
                        },
                    forall|b: int|
                        0 <= b < j ==> {
                            let f = #[trigger] new_filters@[i * m + b];
                            &&& f.with@ == self.filter_sets@[i as int].with@.union(other.filter_sets@[b].with@)
                            &&& f.without@ == self.filter_sets@[i as int].without@.union(other.filter_sets@[b].without@)
                        },
                decreases m - j,
            {
                proof {
                    assert(self.filter_sets@[i as int].wf());
                    assert(other.filter_sets@[j as int].wf());
                    assert(i * m + j < n * m) by (nonlinear_arith)
                        requires
                            i < n,
                            j < m,
                    ;
                }
                let mut f = self.filter_sets[i].clone();
                f.with.union_with(&other.filter_sets[j].with);
                f.without.union_with(&other.filter_sets[j].without);
                let ghost before = new_filters@;
                new_filters.push(f);
                proof {
                    assert forall|a: int, b: int| 0 <= a < i && 0 <= b < m implies #[trigger] new_filters@[a * m + b]
                        == before[a * m + b] by {
                        lemma_product_index(a, b, i as int, m as int);
                    }
                }
                j = j + 1;
            }
            proof {
                assert((i + 1) * m == i * m + m) by (nonlinear_arith);
                assert forall|a: int, b: int|
                    0 <= a < i + 1 && 0 <= b < m implies {
                        let f = #[trigger] new_filters@[a * m + b];
                        &&& f.with@ == self.filter_sets@[a].with@.union(other.filter_sets@[b].with@)
                        &&& f.without@ == self.filter_sets@[a].without@.union(other.filter_sets@[b].without@)
                    } by {
                    if a == i {
                        assert(new_filters@[i * m + b] == new_filters@[a * m + b]);
                    }
                }
            }
            i = i + 1;
        }
        self.filter_sets = new_filters;
        proof {
            let n = old(self).filters().len();
            let m = other.filters().len();
            let v = extended_view(old(self)@, other@);
            assert forall|x: int| 0 <= x < v.filters.len() implies (#[trigger] self.filters()[x]).with@
                == v.filters[x].0 && self.filters()[x].without@ == v.filters[x].1 by {
                let i = x / m as int;
                let j = x % m as int;
                vstd::arithmetic::div_mod::lemma_fundamental_div_mod(x, m as int);
                vstd::arithmetic::div_mod::lemma_mod_bound(x, m as int);
                assert(x == i * m + j) by (nonlinear_arith)
                    requires
                        x == m * i + j,
                ;
                assert(0 <= i < n) by (nonlinear_arith)
                    requires
                        x == i * m + j,
                        0 <= j < m,
                        0 <= x < n * m,
                ;
                assert(self.filters()[i * m + j].with@ == old(self).filters()[i].with@.union(other.filters()[j].with@));
            }
            lemma_view_ext(*self, v);
        }
    }

    /// Sets the underlying unfiltered access as having access to all components.
    pub fn read_all(&mut self)
        requires
            old(self).wf(),
        ensures
            final(self).wf(),
            forall|k: usize| #[trigger] final(self).access_spec().reads(k),
            forall|k: usize| #[trigger] final(self).access_spec().writes(k) == old(self).access_spec().writes(k),
            final(self).access_spec().archetypal_set() == old(self).access_spec().archetypal_set(),
            final(self).access_spec().reads_inverted(),
            final(self).access_spec().writes_inverted() == old(self).access_spec().writes_inverted(),
            final(self).required_set() == old(self).required_set(),
            final(self).filters() == old(self).filters(),
            final(self)@ == all_read_view(old(self)@),
    {
        self.access.read_all();
        proof {
            lemma_view_ext(*self, all_read_view(old(self)@));
        }
    }

    /// Sets the underlying unfiltered access as having mutable access to all components.
    pub fn write_all(&mut self)
        requires
            old(self).wf(),
        ensures
            final(self).wf(),
            forall|k: usize| #[trigger] final(self).access_spec().reads(k),
            forall|k: usize| #[trigger] final(self).access_spec().writes(k),
            final(self).access_spec().archetypal_set() == old(self).access_spec().archetypal_set(),
            final(self).access_spec().reads_inverted(),
            final(self).access_spec().writes_inverted(),
            final(self).required_set() == old(self).required_set(),
            final(self).filters() == old(self).filters(),
            final(self)@ == all_written_view(old(self)@),
    {
        self.access.write_all();
        proof {
            lemma_view_ext(*self, all_written_view(old(self)@));
        }
    }

    /// Whether whatever `self` requires, `other` requires, and whatever
    /// `self` reads or writes, `other` does too.
    pub open spec fn is_subset_spec(&self, other: &FilteredAccess) -> bool {
        &&& self.required_set().subset_of(other.required_set())
        &&& self.access_spec().is_subset_spec(&other.access_spec())
    }

    /// Returns `true` if the set is a subset of another, without taking
    /// into account the filters.
    pub fn is_subset(&self, other: &FilteredAccess) -> (r: bool)
        requires
            self.wf(),
            other.wf(),
        ensures
            r == self.is_subset_spec(other),
    {
        self.required.is_subset(&other.required) && self.access.is_subset(&other.access)
    }

    /// Returns `true` if this and `other` can be active at the same time.
    pub fn is_compatible(&self, other: &FilteredAccess) -> (r: bool)
        requires
            self.wf(),
            other.wf(),
        ensures
            r == self.compatible(other),
    {
        if self.access.is_compatible(&other.access) {
            return true;
        }
        let mut i: usize = 0;
        while i < self.filter_sets.len()
            invariant
                0 <= i <= self.filter_sets@.len(),
                !self.access_spec().compatible(&other.access_spec()),
                forall|a: int, b: int|
                    #![trigger self.filter_sets@[a], other.filter_sets@[b]]
                    0 <= a < i && 0 <= b < other.filter_sets@.len() ==> self.filter_sets@[a].ruled_out_by_spec(&other.filter_sets@[b]),
            decreases self.filter_sets@.len() - i,
        {
            let mut j: usize = 0;
            while j < other.filter_sets.len()
                invariant
                    0 <= i < self.filter_sets@.len(),
                    0 <= j <= other.filter_sets@.len(),
                    !self.access_spec().compatible(&other.access_spec()),
                    forall|a: int, b: int|
                        #![trigger self.filter_sets@[a], other.filter_sets@[b]]
                        0 <= a < i && 0 <= b < other.filter_sets@.len() ==> self.filter_sets@[a].ruled_out_by_spec(&other.filter_sets@[b]),
                    forall|b: int|
                        0 <= b < j ==> self.filter_sets@[i as int].ruled_out_by_spec(&#[trigger] other.filter_sets@[b]),
                decreases other.filter_sets@.len() - j,
            {
                if !self.filter_sets[i].is_ruled_out_by(&other.filter_sets[j]) {
                    proof {
                        assert(!self.filters()[i as int].ruled_out_by_spec(&other.filters()[j as int]));
                    }
                    return false;
                }
                j = j + 1;
            }
            i = i + 1;
        }
        true
    }

    /// Returns the elements that this access and `other` cannot access at the
    /// same time; empty when they are compatible.
    pub fn get_conflicts(&self, other: &FilteredAccess) -> (r: AccessConflicts)
        requires
            self.wf(),
            other.wf(),
        ensures
            r.wf(),
            self.compatible(other) ==> r.is_empty_spec(),
            !self.compatible(other) ==> (r is All <==> self.access_spec().conflicts_unbounded(&other.access_spec())),
            !self.compatible(other) ==> (r matches AccessConflicts::Individual(s) ==> s@ == self.access_spec().conflict_set(&other.access_spec())),
            r is All <==> self.conflict_unbounded(other),
            forall|k: usize| #[trigger] r.includes(k) == self.conflict_includes(other, k),
    {
        if !self.is_compatible(other) {
            return self.access.get_conflicts(&other.access);
        }
        AccessConflicts::empty()
    }
}

impl Clone for FilteredAccess {
    fn clone(&self) -> (r: Self)
        ensures
            forall|k: usize| #[trigger] r.access_spec().reads(k) == self.access_spec().reads(k),
            forall|k: usize| #[trigger] r.access_spec().writes(k) == self.access_spec().writes(k),
            r.access_spec().archetypal_set() == self.access_spec().archetypal_set(),
            r.access_spec().reads_inverted() == self.access_spec().reads_inverted(),
            r.access_spec().writes_inverted() == self.access_spec().writes_inverted(),
            r.required_set() == self.required_set(),
            r.filters().len() == self.filters().len(),
            forall|i: int|
                0 <= i < self.filters().len() ==> (#[trigger] r.filters()[i]).with@ == self.filters()[i].with@
                    && r.filters()[i].without@ == self.filters()[i].without@,
            self.wf() ==> r.wf(),
            r@ == self@,
    {
        let mut filter_sets: Vec<AccessFilters> = Vec::new();
        let mut i: usize = 0;
        while i < self.filter_sets.len()
            invariant
                0 <= i <= self.filter_sets@.len(),
                filter_sets@.len() == i,
                forall|a: int|
                    0 <= a < i ==> (#[trigger] filter_sets@[a]).with@ == self.filter_sets@[a].with@
                        && filter_sets@[a].without@ == self.filter_sets@[a].without@
                        && (self.filter_sets@[a].wf() ==> filter_sets@[a].wf()),
            decreases self.filter_sets@.len() - i,
        {
            filter_sets.push(self.filter_sets[i].clone());
            i = i + 1;
        }
        let r = FilteredAccess { access: self.access.clone(), required: self.required.clone(), filter_sets };
        proof {
            lemma_view_ext(r, self@);
        }
        r
    }
}

impl Default for FilteredAccess {
    fn default() -> (r: Self)
        ensures
            r.wf(),
            r.access_spec().is_empty_spec(),
            forall|k: usize| !#[trigger] r.access_spec().writes(k),
            r.required_set() == Set::<usize>::empty(),
            r.filters().len() == 1,
            r.filters()[0].with@ == Set::<usize>::empty(),
            r.filters()[0].without@ == Set::<usize>::empty(),
            r@ == matches_everything_view(),
    {
        FilteredAccess::matches_everything()
    }
}

/// A collection of [`FilteredAccess`] instances.
///
/// Used internally to statically check if systems have conflicting access.
///
/// It stores multiple sets of accesses.
/// - A "combined" set, which is the access of all filters in this set combined.
/// - The set of access of each individual filters in this set.
#[derive(Debug, PartialEq, Eq)]
pub struct FilteredAccessSet {
    combined_access: Access,
    filtered_accesses: Vec<FilteredAccess>,
}

impl FilteredAccessSet {
    /// The unfiltered access of the whole set.
    pub closed spec fn combined(&self) -> Access {
        self.combined_access
    }

    /// The filtered accesses of the set.
    pub closed spec fn accesses(&self) -> Seq<FilteredAccess> {
        self.filtered_accesses@
    }

    /// Well-formedness: every part is well formed and the combined access is
    /// exactly the union of the filtered accesses.
    pub closed spec fn wf(&self) -> bool {
        &&& self.combined_access.wf()
        &&& forall|i: int| 0 <= i < self.filtered_accesses@.len() ==> (#[trigger] self.filtered_accesses@[i]).wf()
        &&& forall|k: usize| #[trigger] self.combined_access.reads(k) <==> exists|i: int|
            0 <= i < self.filtered_accesses@.len() && (#[trigger] self.filtered_accesses@[i]).access_spec().reads(k)
        &&& forall|k: usize| #[trigger] self.combined_access.writes(k) <==> exists|i: int|
            0 <= i < self.filtered_accesses@.len() && (#[trigger] self.filtered_accesses@[i]).access_spec().writes(k)
        &&& forall|k: usize| #[trigger] self.combined_access.archetypal_set().contains(k) <==> exists|i: int|
            0 <= i < self.filtered_accesses@.len() && (#[trigger] self.filtered_accesses@[i]).access_spec().archetypal_set().contains(k)
    }

    /// Whether every filtered access of `self` is compatible with every one of
    /// `other`.
    pub open spec fn compatible(&self, other: &FilteredAccessSet) -> bool {
        forall|i: int, j: int|
            #![trigger self.accesses()[i], other.accesses()[j]]
            0 <= i < self.accesses().len() && 0 <= j < other.accesses().len() ==> self.accesses()[i].compatible(&other.accesses()[j])
    }

    /// A well-formed set's combined access covers exactly its filtered accesses.
    pub proof fn lemma_wf(&self)
        requires
            self.wf(),
        ensures
            self.combined().wf(),
            forall|i: int| 0 <= i < self.accesses().len() ==> (#[trigger] self.accesses()[i]).wf(),
            forall|k: usize| #[trigger] self.combined().reads(k) <==> exists|i: int|
                0 <= i < self.accesses().len() && (#[trigger] self.accesses()[i]).access_spec().reads(k),
            forall|k: usize| #[trigger] self.combined().writes(k) <==> exists|i: int|
                0 <= i < self.accesses().len() && (#[trigger] self.accesses()[i]).access_spec().writes(k),
    {
        assert forall|k: usize| #[trigger] self.combined().reads(k) <==> exists|i: int|
            0 <= i < self.accesses().len() && (#[trigger] self.accesses()[i]).access_spec().reads(k) by {
            if self.combined_access.reads(k) {
                let i = choose|i: int| 0 <= i < self.filtered_accesses@.len() && (#[trigger] self.filtered_accesses@[i]).access_spec().reads(k);
                assert(self.accesses()[i] == self.filtered_accesses@[i]);
            }
            if exists|i: int| 0 <= i < self.accesses().len() && (#[trigger] self.accesses()[i]).access_spec().reads(k) {
                let i = choose|i: int| 0 <= i < self.accesses().len() && (#[trigger] self.accesses()[i]).access_spec().reads(k);
                assert(self.filtered_accesses@[i].access_spec().reads(k));
            }
        }
        assert forall|k: usize| #[trigger] self.combined().writes(k) <==> exists|i: int|
            0 <= i < self.accesses().len() && (#[trigger] self.accesses()[i]).access_spec().writes(k) by {
            if self.combined_access.writes(k) {
                let i = choose|i: int| 0 <= i < self.filtered_accesses@.len() && (#[trigger] self.filtered_accesses@[i]).access_spec().writes(k);
                assert(self.accesses()[i] == self.filtered_accesses@[i]);
            }
            if exists|i: int| 0 <= i < self.accesses().len() && (#[trigger] self.accesses()[i]).access_spec().writes(k) {
                let i = choose|i: int| 0 <= i < self.accesses().len() && (#[trigger] self.accesses()[i]).access_spec().writes(k);
                assert(self.filtered_accesses@[i].access_spec().writes(k));
            }
        }
    }

    /// Creates an empty [`FilteredAccessSet`].
    pub fn new() -> (r: FilteredAccessSet)
        ensures
            r.wf(),
            r.accesses().len() == 0,
            r.combined().is_empty_spec(),
    {
        FilteredAccessSet { combined_access: Access::new(), filtered_accesses: Vec::new() }
    }

    /// Returns a reference to the unfiltered access of the entire set.
    pub fn combined_access(&self) -> (r: &Access)
        ensures
            *r == self.combined(),
    {
        &self.combined_access
    }

    /// Adds the filtered access to the set.
    pub fn add(&mut self, filtered_access: FilteredAccess)
        requires
            old(self).wf(),
            filtered_access.wf(),
        ensures
            final(self).wf(),
            final(self).accesses() == old(self).accesses().push(filtered_access),
    {
        self.combined_access.extend(filtered_access.access());
        let ghost old_accesses = self.filtered_accesses@;
        self.filtered_accesses.push(filtered_access);
        proof {
            let fa = filtered_access;
            let new_accesses = self.filtered_accesses@;
            assert forall|i: int| 0 <= i < new_accesses.len() implies (#[trigger] new_accesses[i]).wf() by {
                if i < old_accesses.len() {
                    assert(new_accesses[i] == old_accesses[i]);
                }
            }
            assert forall|k: usize| #[trigger] self.combined_access.reads(k) <==> exists|i: int|
                0 <= i < new_accesses.len() && (#[trigger] new_accesses[i]).access_spec().reads(k) by {
                if old(self).combined_access.reads(k) {
                    let i = choose|i: int| 0 <= i < old_accesses.len() && (#[trigger] old_accesses[i]).access_spec().reads(k);
                    assert(new_accesses[i] == old_accesses[i]);
                }
                if fa.access_spec().reads(k) {
                    assert(new_accesses[old_accesses.len() as int] == fa);
                }
                if exists|i: int| 0 <= i < new_accesses.len() && (#[trigger] new_accesses[i]).access_spec().reads(k) {
                    let i = choose|i: int| 0 <= i < new_accesses.len() && (#[trigger] new_accesses[i]).access_spec().reads(k);
                    if i < old_accesses.len() {
                        assert(new_accesses[i] == old_accesses[i]);
                    }
                }
            }
            assert forall|k: usize| #[trigger] self.combined_access.writes(k) <==> exists|i: int|
                0 <= i < new_accesses.len() && (#[trigger] new_accesses[i]).access_spec().writes(k) by {
                if old(self).combined_access.writes(k) {
                    let i = choose|i: int| 0 <= i < old_accesses.len() && (#[trigger] old_accesses[i]).access_spec().writes(k);
                    assert(new_accesses[i] == old_accesses[i]);
                }
                if fa.access_spec().writes(k) {
                    assert(new_accesses[old_accesses.len() as int] == fa);
                }
                if exists|i: int| 0 <= i < new_accesses.len() && (#[trigger] new_accesses[i]).access_spec().writes(k) {
                    let i = choose|i: int| 0 <= i < new_accesses.len() && (#[trigger] new_accesses[i]).access_spec().writes(k);
                    if i < old_accesses.len() {
                        assert(new_accesses[i] == old_accesses[i]);
                    }
                }
            }
            assert forall|k: usize| #[trigger] self.combined_access.archetypal_set().contains(k) <==> exists|i: int|
                0 <= i < new_accesses.len() && (#[trigger] new_accesses[i]).access_spec().archetypal_set().contains(k) by {
                if old(self).combined_access.archetypal_set().contains(k) {
                    let i = choose|i: int| 0 <= i < old_accesses.len() && (#[trigger] old_accesses[i]).access_spec().archetypal_set().contains(k);
                    assert(new_accesses[i] == old_accesses[i]);
                }
                if fa.access_spec().archetypal_set().contains(k) {
                    assert(new_accesses[old_accesses.len() as int] == fa);
                }
                if exists|i: int| 0 <= i < new_accesses.len() && (#[trigger] new_accesses[i]).access_spec().archetypal_set().contains(k) {
                    let i = choose|i: int| 0 <= i < new_accesses.len() && (#[trigger] new_accesses[i]).access_spec().archetypal_set().contains(k);
                    if i < old_accesses.len() {
                        assert(new_accesses[i] == old_accesses[i]);
                    }
                }
            }
        }
    }

    /// Adds a read access to a component to the set.
    pub fn add_unfiltered_component_read(&mut self, index: ComponentId)
        requires
            old(self).wf(),
            index.0 < usize::MAX,
        ensures
            final(self).wf(),
            final(self).accesses().len() == old(self).accesses().len() + 1,
            forall|i: int| 0 <= i < old(self).accesses().len() ==> #[trigger] final(self).accesses()[i] == old(self).accesses()[i],
            forall|k: usize| #[trigger] final(self).accesses().last().access_spec().reads(k) == (k == index.0),
            forall|k: usize| #[trigger] final(self).accesses().last().access_spec().writes(k) == false,
            final(self).accesses().last()@ == read_added_view(matches_everything_view(), index.0),
    {
        let mut filter = FilteredAccess::default();
        filter.add_read(index);
        self.add(filter);
    }

    /// Adds a write access to a component to the set.
    pub fn add_unfiltered_component_write(&mut self, index: ComponentId)
        requires
            old(self).wf(),
            index.0 < usize::MAX,
        ensures
            final(self).wf(),
            final(self).accesses().len() == old(self).accesses().len() + 1,
            forall|i: int| 0 <= i < old(self).accesses().len() ==> #[trigger] final(self).accesses()[i] == old(self).accesses()[i],
            forall|k: usize| #[trigger] final(self).accesses().last().access_spec().reads(k) == (k == index.0),
            forall|k: usize| #[trigger] final(self).accesses().last().access_spec().writes(k) == (k == index.0),
            final(self).accesses().last()@ == write_added_view(matches_everything_view(), index.0),
    {
        let mut filter = FilteredAccess::default();
        filter.add_write(index);
        self.add(filter);
    }

    /// Marks the set as reading all components.
    pub fn read_all(&mut self)
        requires
            old(self).wf(),
        ensures
            final(self).wf(),
            final(self).accesses().len() == old(self).accesses().len() + 1,
            forall|i: int| 0 <= i < old(self).accesses().len() ==> #[trigger] final(self).accesses()[i] == old(self).accesses()[i],
            forall|k: usize| #[trigger] final(self).accesses().last().access_spec().reads(k),
            forall|k: usize| #[trigger] final(self).accesses().last().access_spec().writes(k) == false,
            forall|k: usize| #[trigger] final(self).combined().reads(k),
            final(self).accesses().last()@ == all_read_view(matches_everything_view()),
    {
        let mut filter = FilteredAccess::matches_everything();
        filter.read_all();
        self.add(filter);
        proof {
            let n = self.filtered_accesses@.len() - 1;
            assert forall|k: usize| #[trigger] self.combined().reads(k) by {
                assert(self.filtered_accesses@[n].access_spec().reads(k));
            }
        }
    }

    /// Marks the set as writing all components.
    pub fn write_all(&mut self)
        requires
            old(self).wf(),
        ensures
            final(self).wf(),
            final(self).accesses().len() == old(self).accesses().len() + 1,
            forall|i: int| 0 <= i < old(self).accesses().len() ==> #[trigger] final(self).accesses()[i] == old(self).accesses()[i],
            forall|k: usize| #[trigger] final(self).accesses().last().access_spec().reads(k),
            forall|k: usize| #[trigger] final(self).accesses().last().access_spec().writes(k),
            forall|k: usize| #[trigger] final(self).combined().writes(k),
            final(self).accesses().last()@ == all_written_view(matches_everything_view()),
    {
        let mut filter = FilteredAccess::matches_everything();
        filter.write_all();
        self.add(filter);
        proof {
            let n = self.filtered_accesses@.len() - 1;
            assert forall|k: usize| #[trigger] self.combined().writes(k) by {
                assert(self.filtered_accesses@[n].access_spec().writes(k));
            }
        }
    }

    /// Removes all accesses.
    pub fn clear(&mut self)
        requires
            old(self).wf(),
        ensures
            final(self).wf(),
            final(self).accesses().len() == 0,
            final(self).combined().is_empty_spec(),
    {
        self.combined_access.clear();
        self.filtered_accesses.clear();
    }

    /// Adds all of the accesses from the passed set to `self`.
    pub fn extend(&mut self, filtered_access_set: FilteredAccessSet)
        requires
            old(self).wf(),
            filtered_access_set.wf(),
        ensures
            final(self).wf(),
            final(self).accesses() == old(self).accesses() + filtered_access_set.accesses(),
    {
        let mut other = filtered_access_set;
        self.combined_access.extend(&other.combined_access);
        let ghost old_accesses = self.filtered_accesses@;
        let ghost other_accesses = other.filtered_accesses@;
        self.filtered_accesses.append(&mut other.filtered_accesses);
        proof {
            let new_accesses = self.filtered_accesses@;
            let other = filtered_access_set;
            assert(new_accesses == old_accesses + other_accesses);
            assert forall|i: int| 0 <= i < new_accesses.len() implies (#[trigger] new_accesses[i]).wf() by {
                if i < old_accesses.len() {
                    assert(new_accesses[i] == old_accesses[i]);
                } else {
                    assert(new_accesses[i] == other_accesses[i - old_accesses.len()]);
                }
            }
            assert forall|k: usize| #[trigger] self.combined_access.reads(k) <==> exists|i: int|
                0 <= i < new_accesses.len() && (#[trigger] new_accesses[i]).access_spec().reads(k) by {
                if old(self).combined_access.reads(k) {
                    let i = choose|i: int| 0 <= i < old_accesses.len() && (#[trigger] old_accesses[i]).access_spec().reads(k);
                    assert(new_accesses[i] == old_accesses[i]);
                }
                if other.combined_access.reads(k) {
                    let i = choose|i: int| 0 <= i < other_accesses.len() && (#[trigger] other_accesses[i]).access_spec().reads(k);
                    assert(new_accesses[old_accesses.len() + i] == other_accesses[i]);
                }
                if exists|i: int| 0 <= i < new_accesses.len() && (#[trigger] new_accesses[i]).access_spec().reads(k) {
                    let i = choose|i: int| 0 <= i < new_accesses.len() && (#[trigger] new_accesses[i]).access_spec().reads(k);
                    if i < old_accesses.len() {
                        assert(new_accesses[i] == old_accesses[i]);
                    } else {
                        assert(new_accesses[i] == other_accesses[i - old_accesses.len()]);
                    }
                }
            }
            assert forall|k: usize| #[trigger] self.combined_access.writes(k) <==> exists|i: int|
                0 <= i < new_accesses.len() && (#[trigger] new_accesses[i]).access_spec().writes(k) by {
                if old(self).combined_access.writes(k) {
                    let i = choose|i: int| 0 <= i < old_accesses.len() && (#[trigger] old_accesses[i]).access_spec().writes(k);
                    assert(new_accesses[i] == old_accesses[i]);
                }
                if other.combined_access.writes(k) {
                    let i = choose|i: int| 0 <= i < other_accesses.len() && (#[trigger] other_accesses[i]).access_spec().writes(k);
                    assert(new_accesses[old_accesses.len() + i] == other_accesses[i]);
                }
                if exists|i: int| 0 <= i < new_accesses.len() && (#[trigger] new_accesses[i]).access_spec().writes(k) {
                    let i = choose|i: int| 0 <= i < new_accesses.len() && (#[trigger] new_accesses[i]).access_spec().writes(k);
                    if i < old_accesses.len() {
                        assert(new_accesses[i] == old_accesses[i]);
                    } else {
                        assert(new_accesses[i] == other_accesses[i - old_accesses.len()]);
                    }
                }
            }
            assert forall|k: usize| #[trigger] self.combined_access.archetypal_set().contains(k) <==> exists|i: int|
                0 <= i < new_accesses.len() && (#[trigger] new_accesses[i]).access_spec().archetypal_set().contains(k) by {
                if old(self).combined_access.archetypal_set().contains(k) {
                    let i = choose|i: int| 0 <= i < old_accesses.len() && (#[trigger] old_accesses[i]).access_spec().archetypal_set().contains(k);
                    assert(new_accesses[i] == old_accesses[i]);
                }
                if other.combined_access.archetypal_set().contains(k) {
                    let i = choose|i: int| 0 <= i < other_accesses.len() && (#[trigger] other_accesses[i]).access_spec().archetypal_set().contains(k);
                    assert(new_accesses[old_accesses.len() + i] == other_accesses[i]);
                }
                if exists|i: int| 0 <= i < new_accesses.len() && (#[trigger] new_accesses[i]).access_spec().archetypal_set().contains(k) {
                    let i = choose|i: int| 0 <= i < new_accesses.len() && (#[trigger] new_accesses[i]).access_spec().archetypal_set().contains(k);
                    if i < old_accesses.len() {
                        assert(new_accesses[i] == old_accesses[i]);
                    } else {
                        assert(new_accesses[i] == other_accesses[i - old_accesses.len()]);
                    }
                }
            }
        }
    }

    /// Returns `true` if this set and `other` can be active at the same time.
    pub fn is_compatible(&self, other: &FilteredAccessSet) -> (r: bool)
        requires
            self.wf(),
            other.wf(),
        ensures
            r == self.compatible(other),
    {
        if self.combined_access.is_compatible(&other.combined_access) {
            proof {
                self.lemma_combined_compatible(other);
            }
            return true;
        }
        let mut i: usize = 0;
        while i < self.filtered_accesses.len()
            invariant
                0 <= i <= self.filtered_accesses@.len(),
                self.wf(),
                other.wf(),
                forall|a: int, b: int|
                    #![trigger self.filtered_accesses@[a], other.filtered_accesses@[b]]
                    0 <= a < i && 0 <= b < other.filtered_accesses@.len() ==> self.filtered_accesses@[a].compatible(&other.filtered_accesses@[b]),
            decreases self.filtered_accesses@.len() - i,
        {
            let mut j: usize = 0;
            while j < other.filtered_accesses.len()
                invariant
                    0 <= i < self.filtered_accesses@.len(),
                    0 <= j <= other.filtered_accesses@.len(),
                    self.wf(),
                    other.wf(),
                    forall|a: int, b: int|
                        #![trigger self.filtered_accesses@[a], other.filtered_accesses@[b]]
                        0 <= a < i && 0 <= b < other.filtered_accesses@.len() ==> self.filtered_accesses@[a].compatible(&other.filtered_accesses@[b]),
                    forall|b: int|
                        0 <= b < j ==> self.filtered_accesses@[i as int].compatible(&#[trigger] other.filtered_accesses@[b]),
                decreases other.filtered_accesses@.len() - j,
            {
                proof {
                    assert(self.filtered_accesses@[i as int].wf());
                    assert(other.filtered_accesses@[j as int].wf());
                }
                if !self.filtered_accesses[i].is_compatible(&other.filtered_accesses[j]) {
                    proof {
                        assert(!self.accesses()[i as int].compatible(&other.accesses()[j as int]));
                    }
                    return false;
                }
                j = j + 1;
            }
            i = i + 1;
        }
        true
    }

    /// When the combined accesses of two well-formed sets are compatible, so
    /// is every pair of their filtered accesses.
    pub proof fn lemma_combined_compatible(&self, other: &FilteredAccessSet)
        requires
            self.wf(),
            other.wf(),
            self.combined().compatible(&other.combined()),
        ensures
            self.compatible(other),
            forall|i: int| 0 <= i < self.accesses().len() ==> (#[trigger] self.accesses()[i]).access_spec().compatible(&other.combined()),
    {
        assert forall|i: int, j: int|
            #![trigger self.accesses()[i], other.accesses()[j]]
            0 <= i < self.accesses().len() && 0 <= j < other.accesses().len() implies self.accesses()[i].compatible(&other.accesses()[j]) by {
            let a = self.accesses()[i].access_spec();
            let b = other.accesses()[j].access_spec();
            assert forall|k: usize| !#[trigger] a.conflicts_on(&b, k) by {
                assert(!self.combined().conflicts_on(&other.combined(), k));
                if a.writes(k) {
                    assert(self.filtered_accesses@[i].access_spec().writes(k));
                    assert(self.combined_access.writes(k));
                }
                if a.reads(k) {
                    assert(self.filtered_accesses@[i].access_spec().reads(k));
                    assert(self.combined_access.reads(k));
                }
                if b.writes(k) {
                    assert(other.filtered_accesses@[j].access_spec().writes(k));
                    assert(other.combined_access.writes(k));
                }
                if b.reads(k) {
                    assert(other.filtered_accesses@[j].access_spec().reads(k));
                    assert(other.combined_access.reads(k));
                }
            }
        }
        assert forall|i: int| 0 <= i < self.accesses().len() implies (#[trigger] self.accesses()[i]).access_spec().compatible(&other.combined()) by {
            let a = self.accesses()[i].access_spec();
            let b = other.combined();
            assert forall|k: usize| !#[trigger] a.conflicts_on(&b, k) by {
                assert(!self.combined().conflicts_on(&other.combined(), k));
                if a.writes(k) {
                    assert(self.filtered_accesses@[i].access_spec().writes(k));
                    assert(self.combined_access.writes(k));
                }
                if a.reads(k) {
                    assert(self.filtered_accesses@[i].access_spec().reads(k));
                    assert(self.combined_access.reads(k));
                }
            }
        }
    }

    /// When `filtered_access` is compatible with the combined access of a
    /// well-formed set, it is compatible with every filtered access of it.
    pub proof fn lemma_single_compatible(&self, filtered_access: &FilteredAccess)
        requires
            self.wf(),
            filtered_access.access_spec().compatible(&self.combined()),
        ensures
            forall|i: int| 0 <= i < self.accesses().len() ==> (#[trigger] self.accesses()[i]).compatible(filtered_access),
    {
        assert forall|i: int| 0 <= i < self.accesses().len() implies (#[trigger] self.accesses()[i]).compatible(filtered_access) by {
            let a = self.accesses()[i].access_spec();
            let b = filtered_access.access_spec();
            assert forall|k: usize| !#[trigger] a.conflicts_on(&b, k) by {
                assert(!b.conflicts_on(&self.combined(), k));
                if a.writes(k) {
                    assert(self.filtered_accesses@[i].access_spec().writes(k));
                    assert(self.combined_access.writes(k));
                }
                if a.reads(k) {
                    assert(self.filtered_accesses@[i].access_spec().reads(k));
                    assert(self.combined_access.reads(k));
                }
            }
        }
    }

    /// Returns the elements that this set and `filtered_access` cannot access
    /// at the same time: the conflicts of every filtered access of the set that
    /// is incompatible with `filtered_access`.
    pub fn get_conflicts_single(&self, filtered_access: &FilteredAccess) -> (r: AccessConflicts)
        requires
            self.wf(),
            filtered_access.wf(),
        ensures
            r.wf(),
            r is All <==> exists|i: int|
                0 <= i < self.accesses().len() && (#[trigger] self.accesses()[i]).conflict_unbounded(filtered_access),
            forall|k: usize| #[trigger] r.includes(k) <==> exists|i: int|
                0 <= i < self.accesses().len() && (#[trigger] self.accesses()[i]).conflict_includes(filtered_access, k),
            r is All <==> set_conflicts_unbounded(self.accesses(), *filtered_access),
            forall|k: usize| #[trigger] r.includes(k) <==> set_conflicts_on(self.accesses(), *filtered_access, k),
            r.is_empty_spec() <==> set_conflict_free(self.accesses(), *filtered_access),
    {
        let mut conflicts = AccessConflicts::empty();
        if !filtered_access.access().is_compatible(&self.combined_access) {
            let mut i: usize = 0;
            while i < self.filtered_accesses.len()
                invariant
                    0 <= i <= self.filtered_accesses@.len(),
                    self.wf(),
                    filtered_access.wf(),
                    conflicts.wf(),
                    conflicts is All <==> exists|a: int|
                        0 <= a < i && (#[trigger] self.filtered_accesses@[a]).conflict_unbounded(filtered_access),
                    forall|k: usize| #[trigger] conflicts.includes(k) <==> exists|a: int|
                        0 <= a < i && (#[trigger] self.filtered_accesses@[a]).conflict_includes(filtered_access, k),
                decreases self.filtered_accesses@.len() - i,
            {
                proof {
                    assert(self.filtered_accesses@[i as int].wf());
                }
                let current = &self.filtered_accesses[i];
                if !current.is_compatible(filtered_access) {
                    let c = current.get_conflicts(filtered_access);
                    conflicts.add(&c);
                }
                proof {
                    let fa = self.filtered_accesses@[i as int];
                    assert forall|k: usize| #[trigger] conflicts.includes(k) <==> exists|a: int|
                        0 <= a < i + 1 && (#[trigger] self.filtered_accesses@[a]).conflict_includes(filtered_access, k) by {
                        if fa.conflict_includes(filtered_access, k) {
                            assert(self.filtered_accesses@[i as int].conflict_includes(filtered_access, k));
                        }
                        if exists|a: int| 0 <= a < i + 1 && (#[trigger] self.filtered_accesses@[a]).conflict_includes(filtered_access, k) {
                            let a = choose|a: int| 0 <= a < i + 1 && (#[trigger] self.filtered_accesses@[a]).conflict_includes(filtered_access, k);
                            if a < i {
                                assert(exists|b: int| 0 <= b < i && (#[trigger] self.filtered_accesses@[b]).conflict_includes(filtered_access, k));
                            }
                        }
                    }
                    if fa.conflict_unbounded(filtered_access) {
                        assert(self.filtered_accesses@[i as int].conflict_unbounded(filtered_access));
                    }
                    if exists|a: int| 0 <= a < i + 1 && (#[trigger] self.filtered_accesses@[a]).conflict_unbounded(filtered_access) {
                        let a = choose|a: int| 0 <= a < i + 1 && (#[trigger] self.filtered_accesses@[a]).conflict_unbounded(filtered_access);
                        if a < i {
                            assert(exists|b: int| 0 <= b < i && (#[trigger] self.filtered_accesses@[b]).conflict_unbounded(filtered_access));
                        }
                    }
                }
                i = i + 1;
            }
            proof {
                assert forall|k: usize| #[trigger] conflicts.includes(k) <==> exists|i: int|
                    0 <= i < self.accesses().len() && (#[trigger] self.accesses()[i]).conflict_includes(filtered_access, k) by {
                    if exists|a: int| 0 <= a < self.filtered_accesses@.len() && (#[trigger] self.filtered_accesses@[a]).conflict_includes(filtered_access, k) {
                        let a = choose|a: int| 0 <= a < self.filtered_accesses@.len() && (#[trigger] self.filtered_accesses@[a]).conflict_includes(filtered_access, k);
                        assert(self.accesses()[a].conflict_includes(filtered_access, k));
                    }
                    if exists|a: int| 0 <= a < self.accesses().len() && (#[trigger] self.accesses()[a]).conflict_includes(filtered_access, k) {
                        let a = choose|a: int| 0 <= a < self.accesses().len() && (#[trigger] self.accesses()[a]).conflict_includes(filtered_access, k);
                        assert(self.filtered_accesses@[a].conflict_includes(filtered_access, k));
                    }
                }
                if exists|a: int| 0 <= a < self.filtered_accesses@.len() && (#[trigger] self.filtered_accesses@[a]).conflict_unbounded(filtered_access) {
                    let a = choose|a: int| 0 <= a < self.filtered_accesses@.len() && (#[trigger] self.filtered_accesses@[a]).conflict_unbounded(filtered_access);
                    assert(self.accesses()[a].conflict_unbounded(filtered_access));
                }
                if exists|a: int| 0 <= a < self.accesses().len() && (#[trigger] self.accesses()[a]).conflict_unbounded(filtered_access) {
                    let a = choose|a: int| 0 <= a < self.accesses().len() && (#[trigger] self.accesses()[a]).conflict_unbounded(filtered_access);
                    assert(self.filtered_accesses@[a].conflict_unbounded(filtered_access));
                }
            }
        } else {
            proof {
                self.lemma_single_compatible(filtered_access);
                assert forall|k: usize| !#[trigger] conflicts.includes(k) by {}
                assert forall|i: int, k: usize|
                    0 <= i < self.accesses().len() implies !#[trigger] self.accesses()[i].conflict_includes(filtered_access, k) by {
                    assert(self.accesses()[i].compatible(filtered_access));
                }
            }
        }
        proof {
            lemma_conflicts_empty(&conflicts);
            let ghost acc = self.accesses();
            if forall|k: usize| !#[trigger] conflicts.includes(k) {
                assert forall|k: usize| !#[trigger] set_conflicts_on(acc, *filtered_access, k) by {
                    assert(!conflicts.includes(k));
                }
            }
            if forall|k: usize| !#[trigger] set_conflicts_on(acc, *filtered_access, k) {
                assert forall|k: usize| !#[trigger] conflicts.includes(k) by {
                    assert(!set_conflicts_on(acc, *filtered_access, k));
                }
            }
        }
        conflicts
    }
}

impl Clone for FilteredAccessSet {
    fn clone(&self) -> (r: Self)
        ensures
            forall|k: usize| #[trigger] r.combined().reads(k) == self.combined().reads(k),
            forall|k: usize| #[trigger] r.combined().writes(k) == self.combined().writes(k),
            r.combined().archetypal_set() == self.combined().archetypal_set(),
            r.accesses().len() == self.accesses().len(),
            forall|i: int, k: usize|
                0 <= i < self.accesses().len() ==> (#[trigger] r.accesses()[i].access_spec().reads(k)) == self.accesses()[i].access_spec().reads(k),
            forall|i: int, k: usize|
                0 <= i < self.accesses().len() ==> (#[trigger] r.accesses()[i].access_spec().writes(k)) == self.accesses()[i].access_spec().writes(k),
            self.wf() ==> r.wf(),
    {
        let mut filtered_accesses: Vec<FilteredAccess> = Vec::new();
        let mut i: usize = 0;
        while i < self.filtered_accesses.len()
            invariant
                0 <= i <= self.filtered_accesses@.len(),
                filtered_accesses@.len() == i,
                forall|a: int, k: usize|
                    0 <= a < i ==> (#[trigger] filtered_accesses@[a].access_spec().reads(k)) == self.filtered_accesses@[a].access_spec().reads(k),
                forall|a: int, k: usize|
                    0 <= a < i ==> (#[trigger] filtered_accesses@[a].access_spec().writes(k)) == self.filtered_accesses@[a].access_spec().writes(k),
                forall|a: int|
                    0 <= a < i ==> (#[trigger] filtered_accesses@[a]).access_spec().archetypal_set() == self.filtered_accesses@[a].access_spec().archetypal_set(),
                forall|a: int|
                    0 <= a < i ==> (self.filtered_accesses@[a].wf() ==> (#[trigger] filtered_accesses@[a]).wf()),
            decreases self.filtered_accesses@.len() - i,
        {
            filtered_accesses.push(self.filtered_accesses[i].clone());
            i = i + 1;
        }
        let r = FilteredAccessSet { combined_access: self.combined_access.clone(), filtered_accesses };
        proof {
            if self.wf() {
                assert forall|i: int| 0 <= i < r.filtered_accesses@.len() implies (#[trigger] r.filtered_accesses@[i]).wf() by {
                    assert(self.filtered_accesses@[i].wf());
                }
            assert forall|k: usize| #[trigger] r.combined_access.reads(k) <==> exists|i: int|
                0 <= i < r.filtered_accesses@.len() && (#[trigger] r.filtered_accesses@[i]).access_spec().reads(k) by {
                if self.combined_access.reads(k) {
                    let i = choose|i: int| 0 <= i < self.filtered_accesses@.len() && (#[trigger] self.filtered_accesses@[i]).access_spec().reads(k);
                    assert(r.filtered_accesses@[i].access_spec().reads(k));
                }
                if exists|i: int| 0 <= i < r.filtered_accesses@.len() && (#[trigger] r.filtered_accesses@[i]).access_spec().reads(k) {
                    let i = choose|i: int| 0 <= i < r.filtered_accesses@.len() && (#[trigger] r.filtered_accesses@[i]).access_spec().reads(k);
                    assert(self.filtered_accesses@[i].access_spec().reads(k));
                }
            }
            assert forall|k: usize| #[trigger] r.combined_access.writes(k) <==> exists|i: int|
                0 <= i < r.filtered_accesses@.len() && (#[trigger] r.filtered_accesses@[i]).access_spec().writes(k) by {
                if self.combined_access.writes(k) {
                    let i = choose|i: int| 0 <= i < self.filtered_accesses@.len() && (#[trigger] self.filtered_accesses@[i]).access_spec().writes(k);
                    assert(r.filtered_accesses@[i].access_spec().writes(k));
                }
                if exists|i: int| 0 <= i < r.filtered_accesses@.len() && (#[trigger] r.filtered_accesses@[i]).access_spec().writes(k) {
                    let i = choose|i: int| 0 <= i < r.filtered_accesses@.len() && (#[trigger] r.filtered_accesses@[i]).access_spec().writes(k);
                    assert(self.filtered_accesses@[i].access_spec().writes(k));
                }
            }
            assert forall|k: usize| #[trigger] r.combined_access.archetypal_set().contains(k) <==> exists|i: int|
                0 <= i < r.filtered_accesses@.len() && (#[trigger] r.filtered_accesses@[i]).access_spec().archetypal_set().contains(k) by {
                if self.combined_access.archetypal_set().contains(k) {
                    let i = choose|i: int| 0 <= i < self.filtered_accesses@.len() && (#[trigger] self.filtered_accesses@[i]).access_spec().archetypal_set().contains(k);
                    assert(r.filtered_accesses@[i].access_spec().archetypal_set().contains(k));
                }
                if exists|i: int| 0 <= i < r.filtered_accesses@.len() && (#[trigger] r.filtered_accesses@[i]).access_spec().archetypal_set().contains(k) {
                    let i = choose|i: int| 0 <= i < r.filtered_accesses@.len() && (#[trigger] r.filtered_accesses@[i]).access_spec().archetypal_set().contains(k);
                    assert(self.filtered_accesses@[i].access_spec().archetypal_set().contains(k));
                }
            }
            }
        }
        r
    }
}

impl Default for FilteredAccessSet {
    fn default() -> (r: Self)
        ensures
            r.wf(),
            r.accesses().len() == 0,
            r.combined().is_empty_spec(),
    {
        FilteredAccessSet::new()
    }
}

/// Compatibility of [`Access`] is symmetric.
pub proof fn lemma_access_compatible_symmetric(a: &Access, b: &Access)
    ensures
        a.compatible(b) == b.compatible(a),
{
    assert(a.compatible(b) ==> b.compatible(a)) by {
        if a.compatible(b) {
            assert forall|k: usize| !#[trigger] b.conflicts_on(a, k) by {
                assert(!a.conflicts_on(b, k));
            }
        }
    }
    assert(b.compatible(a) ==> a.compatible(b)) by {
        if b.compatible(a) {
            assert forall|k: usize| !#[trigger] a.conflicts_on(b, k) by {
                assert(!b.conflicts_on(a, k));
            }
        }
    }
}

/// Two well-formed accesses have no conflict, as `get_conflicts` reports
/// them, exactly when they are compatible: the conflicts are not unbounded
/// and the conflict set is empty.
pub proof fn lemma_no_conflicts_iff_compatible(a: &Access, b: &Access)
    requires
        a.wf(),
        b.wf(),
    ensures
        a.compatible(b) <==> (!a.conflicts_unbounded(b) && a.conflict_set(b) == Set::<usize>::empty()),
{
    if a.conflicts_unbounded(b) {
        a.lemma_wf();
        b.lemma_wf();
        lemma_unbounded_conflicts_on_max(a, b);
        assert(a.conflicts_on(b, usize::MAX));
    } else {
        if a.compatible(b) {
            assert(a.conflict_set(b) =~= Set::<usize>::empty());
        }
        if a.conflict_set(b) == Set::<usize>::empty() {
            assert forall|k: usize| !#[trigger] a.conflicts_on(b, k) by {
                assert(!a.conflict_set(b).contains(k));
            }
        }
    }
}

/// When the conflicts of two well-formed accesses are unbounded, they
/// conflict on the largest component index.
proof fn lemma_unbounded_conflicts_on_max(a: &Access, b: &Access)
    requires
        a.wf(),
        b.wf(),
        a.conflicts_unbounded(b),
    ensures
        a.conflicts_on(b, usize::MAX),
{
    a.lemma_max_follows_inversion();
    b.lemma_max_follows_inversion();
}

impl Access {
    /// In a well-formed access the largest index is read (written) exactly
    /// when the reads (writes) are inverted.
    pub proof fn lemma_max_follows_inversion(&self)
        requires
            self.wf(),
        ensures
            self.reads(usize::MAX) == self.reads_inverted(),
            self.writes(usize::MAX) == self.writes_inverted(),
    {
        if self.component_read_and_writes@.contains(usize::MAX) {
            self.component_read_and_writes.lemma_members_below_len(usize::MAX);
        }
        if self.component_writes@.contains(usize::MAX) {
            self.component_writes.lemma_members_below_len(usize::MAX);
        }
    }
}

/// `get_conflicts` of two well-formed accesses reports no conflict exactly
/// when they are compatible.
pub proof fn lemma_get_conflicts_empty_iff_compatible(a: &Access, b: &Access, r: AccessConflicts)
    requires
        a.wf(),
        b.wf(),
        r is All <==> a.conflicts_unbounded(b),
        r matches AccessConflicts::Individual(s) ==> s@ == a.conflict_set(b),
    ensures
        r.is_empty_spec() <==> a.compatible(b),
{
    lemma_no_conflicts_iff_compatible(a, b);
}

/// Compatibility of [`FilteredAccess`] is symmetric.
pub proof fn lemma_filtered_compatible_symmetric(a: &FilteredAccess, b: &FilteredAccess)
    ensures
        a.compatible(b) == b.compatible(a),
{
    lemma_access_compatible_symmetric(&a.access_spec(), &b.access_spec());
    assert(a.filters_disjoint(b) == b.filters_disjoint(a)) by {
        if a.filters_disjoint(b) {
            assert forall|i: int, j: int|
                #![trigger b.filters()[i], a.filters()[j]]
                0 <= i < b.filters().len() && 0 <= j < a.filters().len() implies b.filters()[i].ruled_out_by_spec(&a.filters()[j]) by {
                assert(a.filters()[j].ruled_out_by_spec(&b.filters()[i]));
            }
        }
        if b.filters_disjoint(a) {
            assert forall|i: int, j: int|
                #![trigger a.filters()[i], b.filters()[j]]
                0 <= i < a.filters().len() && 0 <= j < b.filters().len() implies a.filters()[i].ruled_out_by_spec(&b.filters()[j]) by {
                assert(b.filters()[j].ruled_out_by_spec(&a.filters()[i]));
            }
        }
    }
}


/// The abstract value of an [`Access`]: the components it reads and writes,
/// whether each of those sets is given by its complement, and the components
/// it observes archetypally.
pub ghost struct AccessView {
    /// Components that may be read.
    pub reads: Set<usize>,
    /// Components that may be written.
    pub writes: Set<usize>,
    /// Whether the reads cover every component but finitely many.
    pub reads_inverted: bool,
    /// Whether the writes cover every component but finitely many.
    pub writes_inverted: bool,
    /// Components with archetypal access.
    pub archetypal: Set<usize>,
}

/// The abstract value of an [`Access`].
pub open spec fn access_view(a: Access) -> AccessView {
    AccessView {
        reads: Set::new(|k: usize| a.reads(k)),
        writes: Set::new(|k: usize| a.writes(k)),
        reads_inverted: a.reads_inverted(),
        writes_inverted: a.writes_inverted(),
        archetypal: a.archetypal_set(),
    }
}

/// The abstract value of a [`FilteredAccess`]: its access, its required
/// components, and its filter sets as `(with, without)` pairs, joined by OR.
pub ghost struct FilteredAccessView {
    /// The unfiltered access.
    pub access: AccessView,
    /// Components an entity must have.
    pub required: Set<usize>,
    /// The filter sets.
    pub filters: Seq<(Set<usize>, Set<usize>)>,
}

impl View for FilteredAccess {
    type V = FilteredAccessView;

    open spec fn view(&self) -> FilteredAccessView {
        FilteredAccessView {
            access: access_view(self.access_spec()),
            required: self.required_set(),
            filters: Seq::new(
                self.filters().len(),
                |i: int| (self.filters()[i].with@, self.filters()[i].without@),
            ),
        }
    }
}

/// An access with no access at all.
pub open spec fn empty_access_view() -> AccessView {
    AccessView {
        reads: Set::empty(),
        writes: Set::empty(),
        reads_inverted: false,
        writes_inverted: false,
        archetypal: Set::empty(),
    }
}

/// The view of [`FilteredAccess::matches_everything`]: no access, nothing
/// required, one empty filter set.
pub open spec fn matches_everything_view() -> FilteredAccessView {
    FilteredAccessView {
        access: empty_access_view(),
        required: Set::empty(),
        filters: seq![(Set::<usize>::empty(), Set::<usize>::empty())],
    }
}

/// The union of two accesses.
pub open spec fn access_union(a: AccessView, b: AccessView) -> AccessView {
    AccessView {
        reads: a.reads.union(b.reads),
        writes: a.writes.union(b.writes),
        reads_inverted: a.reads_inverted || b.reads_inverted,
        writes_inverted: a.writes_inverted || b.writes_inverted,
        archetypal: a.archetypal.union(b.archetypal),
    }
}

/// The conjunction of two disjunctions of filter sets: every pair of
/// alternatives, in row-major order.
pub open spec fn filter_product(
    a: Seq<(Set<usize>, Set<usize>)>,
    b: Seq<(Set<usize>, Set<usize>)>,
) -> Seq<(Set<usize>, Set<usize>)> {
    Seq::new(
        a.len() * b.len(),
        |x: int|
            (
                a[x / b.len() as int].0.union(b[x % b.len() as int].0),
                a[x / b.len() as int].1.union(b[x % b.len() as int].1),
            ),
    )
}

/// The view after [`FilteredAccess::extend`].
pub open spec fn extended_view(a: FilteredAccessView, b: FilteredAccessView) -> FilteredAccessView {
    FilteredAccessView {
        access: access_union(a.access, b.access),
        required: a.required.union(b.required),
        filters: filter_product(a.filters, b.filters),
    }
}

/// The view after [`FilteredAccess::extend_access`].
pub open spec fn access_extended_view(a: FilteredAccessView, b: FilteredAccessView) -> FilteredAccessView {
    FilteredAccessView { access: access_union(a.access, b.access), ..a }
}

/// The view after [`FilteredAccess::append_or`].
pub open spec fn or_appended_view(a: FilteredAccessView, b: FilteredAccessView) -> FilteredAccessView {
    FilteredAccessView { filters: a.filters + b.filters, ..a }
}

/// The view with `id` added to the `With` part of every filter set.
pub open spec fn with_added_view(a: FilteredAccessView, id: usize) -> FilteredAccessView {
    FilteredAccessView {
        filters: Seq::new(a.filters.len(), |i: int| (a.filters[i].0.insert(id), a.filters[i].1)),
        ..a
    }
}

/// The view with `id` added to the `Without` part of every filter set.
pub open spec fn without_added_view(a: FilteredAccessView, id: usize) -> FilteredAccessView {
    FilteredAccessView {
        filters: Seq::new(a.filters.len(), |i: int| (a.filters[i].0, a.filters[i].1.insert(id))),
        ..a
    }
}

/// The view after [`FilteredAccess::add_read`].
pub open spec fn read_added_view(a: FilteredAccessView, id: usize) -> FilteredAccessView {
    let w = with_added_view(a, id);
    FilteredAccessView {
        access: AccessView { reads: a.access.reads.insert(id), ..a.access },
        required: a.required.insert(id),
        ..w
    }
}

/// The view after [`FilteredAccess::add_write`].
pub open spec fn write_added_view(a: FilteredAccessView, id: usize) -> FilteredAccessView {
    let w = with_added_view(a, id);
    FilteredAccessView {
        access: AccessView {
            reads: a.access.reads.insert(id),
            writes: a.access.writes.insert(id),
            ..a.access
        },
        required: a.required.insert(id),
        ..w
    }
}

/// A filtered access whose parts agree with a view has that view.
/// The view after [`FilteredAccess::read_all`]: every component is read.
pub open spec fn all_read_view(a: FilteredAccessView) -> FilteredAccessView {
    FilteredAccessView {
        access: AccessView { reads: Set::full(), reads_inverted: true, ..a.access },
        ..a
    }
}

/// The view after [`FilteredAccess::write_all`]: every component is read and
/// written.
pub open spec fn all_written_view(a: FilteredAccessView) -> FilteredAccessView {
    FilteredAccessView {
        access: AccessView {
            reads: Set::full(),
            writes: Set::full(),
            reads_inverted: true,
            writes_inverted: true,
            ..a.access
        },
        ..a
    }
}

/// A filtered access whose parts agree with `v` has the view `v`.
pub proof fn lemma_view_ext(f: FilteredAccess, v: FilteredAccessView)
    requires
        forall|k: usize| #[trigger] f.access_spec().reads(k) == v.access.reads.contains(k),
        forall|k: usize| #[trigger] f.access_spec().writes(k) == v.access.writes.contains(k),
        f.access_spec().reads_inverted() == v.access.reads_inverted,
        f.access_spec().writes_inverted() == v.access.writes_inverted,
        f.access_spec().archetypal_set() == v.access.archetypal,
        f.required_set() == v.required,
        f.filters().len() == v.filters.len(),
        forall|i: int|
            0 <= i < v.filters.len() ==> (#[trigger] f.filters()[i]).with@ == v.filters[i].0
                && f.filters()[i].without@ == v.filters[i].1,
    ensures
        f@ == v,
{
    assert(f@.access.reads =~= v.access.reads);
    assert(f@.access.writes =~= v.access.writes);
    assert(f@.filters =~= v.filters);
}

/// Filters cannot make two accesses disjoint when the first filter set of
/// `a` excludes nothing and requires nothing that the first filter set of `b`
/// excludes (as for the accesses that [`FilteredAccessSet::read_all`],
/// [`FilteredAccessSet::write_all`] and the unfiltered component accesses
/// add): the two are then compatible exactly when their unfiltered accesses
/// are.
pub proof fn lemma_unfiltered_compatible(a: &FilteredAccess, b: &FilteredAccess)
    requires
        a@.filters.len() > 0,
        b@.filters.len() > 0,
        a@.filters[0].1 == Set::<usize>::empty(),
        a@.filters[0].0.disjoint(b@.filters[0].1),
    ensures
        a.compatible(b) == a.access_spec().compatible(&b.access_spec()),
{
    if a.filters_disjoint(b) {
        assert(a.filters()[0].ruled_out_by_spec(&b.filters()[0]));
        assert(a.filters()[0].without@ == Set::<usize>::empty());
        assert(a.filters()[0].with@ == a@.filters[0].0);
        assert(b.filters()[0].without@ == b@.filters[0].1);
    }
}

/// Whether some access of `accesses` conflicts with `g` on component `k`
/// (what [`FilteredAccessSet::get_conflicts_single`] lists).
pub open spec fn set_conflicts_on(accesses: Seq<FilteredAccess>, g: FilteredAccess, k: usize) -> bool {
    exists|i: int| 0 <= i < accesses.len() && (#[trigger] accesses[i]).conflict_includes(&g, k)
}

/// Whether some access of `accesses` conflicts with `g` on every component
/// but finitely many (the conflicts of
/// [`FilteredAccessSet::get_conflicts_single`] cannot be listed).
pub open spec fn set_conflicts_unbounded(accesses: Seq<FilteredAccess>, g: FilteredAccess) -> bool {
    exists|i: int| 0 <= i < accesses.len() && (#[trigger] accesses[i]).conflict_unbounded(&g)
}

/// Whether no access of `accesses` conflicts with `g` (what an empty result
/// of [`FilteredAccessSet::get_conflicts_single`] says).
pub open spec fn set_conflict_free(accesses: Seq<FilteredAccess>, g: FilteredAccess) -> bool {
    &&& !set_conflicts_unbounded(accesses, g)
    &&& forall|k: usize| !#[trigger] set_conflicts_on(accesses, g, k)
}

/// Listed conflicts are empty exactly when they are not unbounded and
/// include no component.
proof fn lemma_conflicts_empty(c: &AccessConflicts)
    requires
        c.wf(),
    ensures
        c.is_empty_spec() <==> (!(*c is All) && forall|k: usize| !#[trigger] c.includes(k)),
{
    match c {
        AccessConflicts::All => {},
        AccessConflicts::Individual(s) => {
            if forall|k: usize| !#[trigger] c.includes(k) {
                assert forall|k: usize| !s@.contains(k) by {
                    assert(!c.includes(k));
                }
                assert(s@ =~= Set::<usize>::empty());
            }
        },
    }
}

/// Adding an access to a set (see [`FilteredAccessSet::add`]) adds its reads
/// and writes to the combined access and its conflicts to the set's: it
/// never removes a read, a write or a conflict.
pub proof fn lemma_add_monotone(before: &FilteredAccessSet, after: &FilteredAccessSet, fa: &FilteredAccess, g: &FilteredAccess)
    requires
        before.wf(),
        after.wf(),
        after.accesses() == before.accesses().push(*fa),
    ensures
        forall|k: usize| #[trigger] after.combined().reads(k) == (before.combined().reads(k) || fa.access_spec().reads(k)),
        forall|k: usize| #[trigger] after.combined().writes(k) == (before.combined().writes(k) || fa.access_spec().writes(k)),
        forall|k: usize| #[trigger] set_conflicts_on(after.accesses(), *g, k) == (set_conflicts_on(before.accesses(), *g, k)
            || fa.conflict_includes(g, k)),
        set_conflicts_unbounded(after.accesses(), *g) == (set_conflicts_unbounded(before.accesses(), *g)
            || fa.conflict_unbounded(g)),
        set_conflict_free(after.accesses(), *g) ==> set_conflict_free(before.accesses(), *g),
{
    assert(before.accesses() + seq![*fa] =~= before.accesses().push(*fa));
    lemma_append_conflicts(before, after, seq![*fa], g);
    assert forall|k: usize| set_conflicts_on(seq![*fa], *g, k) == fa.conflict_includes(g, k) by {
        if fa.conflict_includes(g, k) {
            assert(seq![*fa][0] == *fa);
        }
    }
    if fa.conflict_unbounded(g) {
        assert(seq![*fa][0] == *fa);
    }
    let n = before.accesses().len();
    assert(after.filtered_accesses@[n as int] == *fa);
    assert forall|k: usize| #[trigger] after.combined().reads(k) == (before.combined().reads(k) || fa.access_spec().reads(k)) by {
        if after.combined().reads(k) {
            let i = choose|i: int| 0 <= i < after.filtered_accesses@.len() && (#[trigger] after.filtered_accesses@[i]).access_spec().reads(k);
            if i < n {
                assert(after.filtered_accesses@[i] == before.filtered_accesses@[i]);
            }
        }
        if before.combined().reads(k) {
            let i = choose|i: int| 0 <= i < before.filtered_accesses@.len() && (#[trigger] before.filtered_accesses@[i]).access_spec().reads(k);
            assert(after.filtered_accesses@[i] == before.filtered_accesses@[i]);
        }
    }
    assert forall|k: usize| #[trigger] after.combined().writes(k) == (before.combined().writes(k) || fa.access_spec().writes(k)) by {
        if after.combined().writes(k) {
            let i = choose|i: int| 0 <= i < after.filtered_accesses@.len() && (#[trigger] after.filtered_accesses@[i]).access_spec().writes(k);
            if i < n {
                assert(after.filtered_accesses@[i] == before.filtered_accesses@[i]);
            }
        }
        if before.combined().writes(k) {
            let i = choose|i: int| 0 <= i < before.filtered_accesses@.len() && (#[trigger] before.filtered_accesses@[i]).access_spec().writes(k);
            assert(after.filtered_accesses@[i] == before.filtered_accesses@[i]);
        }
    }
}

/// Extending a set with another (see [`FilteredAccessSet::extend`]) joins
/// their combined accesses, and the conflicts of the result with any access
/// are those of either set: the result conflicts with nothing exactly when
/// neither set does.
pub proof fn lemma_extend_conflicts(first: &FilteredAccessSet, second: &FilteredAccessSet, after: &FilteredAccessSet, g: &FilteredAccess)
    requires
        first.wf(),
        second.wf(),
        after.wf(),
        after.accesses() == first.accesses() + second.accesses(),
    ensures
        forall|k: usize| #[trigger] after.combined().reads(k) == (first.combined().reads(k) || second.combined().reads(k)),
        forall|k: usize| #[trigger] after.combined().writes(k) == (first.combined().writes(k) || second.combined().writes(k)),
        forall|k: usize| #[trigger] set_conflicts_on(after.accesses(), *g, k) == (set_conflicts_on(first.accesses(), *g, k)
            || set_conflicts_on(second.accesses(), *g, k)),
        set_conflicts_unbounded(after.accesses(), *g) == (set_conflicts_unbounded(first.accesses(), *g)
            || set_conflicts_unbounded(second.accesses(), *g)),
        set_conflict_free(after.accesses(), *g) == (set_conflict_free(first.accesses(), *g)
            && set_conflict_free(second.accesses(), *g)),
{
    lemma_append_conflicts(first, after, second.accesses(), g);
    let n = first.accesses().len();
    assert forall|k: usize| #[trigger] after.combined().reads(k) == (first.combined().reads(k) || second.combined().reads(k)) by {
        if second.combined().reads(k) {
            let i = choose|i: int| 0 <= i < second.filtered_accesses@.len() && (#[trigger] second.filtered_accesses@[i]).access_spec().reads(k);
            assert(after.filtered_accesses@[n + i] == second.filtered_accesses@[i]);
        }
        if after.combined().reads(k) {
            let i = choose|i: int| 0 <= i < after.filtered_accesses@.len() && (#[trigger] after.filtered_accesses@[i]).access_spec().reads(k);
            if i < n {
                assert(after.filtered_accesses@[i] == first.filtered_accesses@[i]);
            } else {
                assert(after.filtered_accesses@[i] == second.filtered_accesses@[i - n]);
            }
        }
        if first.combined().reads(k) {
            let i = choose|i: int| 0 <= i < first.filtered_accesses@.len() && (#[trigger] first.filtered_accesses@[i]).access_spec().reads(k);
            assert(after.filtered_accesses@[i] == first.filtered_accesses@[i]);
        }
    }
    assert forall|k: usize| #[trigger] after.combined().writes(k) == (first.combined().writes(k) || second.combined().writes(k)) by {
        if second.combined().writes(k) {
            let i = choose|i: int| 0 <= i < second.filtered_accesses@.len() && (#[trigger] second.filtered_accesses@[i]).access_spec().writes(k);
            assert(after.filtered_accesses@[n + i] == second.filtered_accesses@[i]);
        }
        if after.combined().writes(k) {
            let i = choose|i: int| 0 <= i < after.filtered_accesses@.len() && (#[trigger] after.filtered_accesses@[i]).access_spec().writes(k);
            if i < n {
                assert(after.filtered_accesses@[i] == first.filtered_accesses@[i]);
            } else {
                assert(after.filtered_accesses@[i] == second.filtered_accesses@[i - n]);
            }
        }
        if first.combined().writes(k) {
            let i = choose|i: int| 0 <= i < first.filtered_accesses@.len() && (#[trigger] first.filtered_accesses@[i]).access_spec().writes(k);
            assert(after.filtered_accesses@[i] == first.filtered_accesses@[i]);
        }
    }
}

/// The conflicts of a set whose accesses are those of `first` followed by
/// `more` are those of either part.
proof fn lemma_append_conflicts(first: &FilteredAccessSet, after: &FilteredAccessSet, more: Seq<FilteredAccess>, g: &FilteredAccess)
    requires
        after.accesses() == first.accesses() + more,
    ensures
        forall|k: usize| #[trigger] set_conflicts_on(after.accesses(), *g, k) == (set_conflicts_on(first.accesses(), *g, k)
            || set_conflicts_on(more, *g, k)),
        set_conflicts_unbounded(after.accesses(), *g) == (set_conflicts_unbounded(first.accesses(), *g)
            || set_conflicts_unbounded(more, *g)),
        set_conflict_free(after.accesses(), *g) == (set_conflict_free(first.accesses(), *g)
            && set_conflict_free(more, *g)),
{
    let a = after.accesses();
    let f = first.accesses();
    let n = f.len();
    assert forall|k: usize| #[trigger] set_conflicts_on(a, *g, k) == (set_conflicts_on(f, *g, k) || set_conflicts_on(more, *g, k)) by {
        if set_conflicts_on(a, *g, k) {
            let i = choose|i: int| 0 <= i < a.len() && (#[trigger] a[i]).conflict_includes(g, k);
            if i < n {
                assert(a[i] == f[i]);
            } else {
                assert(a[i] == more[i - n]);
            }
        }
        if set_conflicts_on(f, *g, k) {
            let i = choose|i: int| 0 <= i < f.len() && (#[trigger] f[i]).conflict_includes(g, k);
            assert(a[i] == f[i]);
        }
        if set_conflicts_on(more, *g, k) {
            let i = choose|i: int| 0 <= i < more.len() && (#[trigger] more[i]).conflict_includes(g, k);
            assert(a[n + i] == more[i]);
        }
    }
    if set_conflicts_unbounded(a, *g) {
        let i = choose|i: int| 0 <= i < a.len() && (#[trigger] a[i]).conflict_unbounded(g);
        if i < n {
            assert(a[i] == f[i]);
        } else {
            assert(a[i] == more[i - n]);
        }
    }
    if set_conflicts_unbounded(f, *g) {
        let i = choose|i: int| 0 <= i < f.len() && (#[trigger] f[i]).conflict_unbounded(g);
        assert(a[i] == f[i]);
    }
    if set_conflicts_unbounded(more, *g) {
        let i = choose|i: int| 0 <= i < more.len() && (#[trigger] more[i]).conflict_unbounded(g);
        assert(a[n + i] == more[i]);
    }
    if set_conflict_free(f, *g) && set_conflict_free(more, *g) {
        assert forall|k: usize| !#[trigger] set_conflicts_on(a, *g, k) by {
            assert(!set_conflicts_on(f, *g, k));
            assert(!set_conflicts_on(more, *g, k));
        }
    }
    if set_conflict_free(a, *g) {
        assert forall|k: usize| !#[trigger] set_conflicts_on(f, *g, k) by {
            assert(!set_conflicts_on(a, *g, k));
        }
        assert forall|k: usize| !#[trigger] set_conflicts_on(more, *g, k) by {
            assert(!set_conflicts_on(a, *g, k));
        }
    }
}

/// Two filter sets rule each other out exactly when a component required by
/// one is excluded by the other, in either direction; so ruling out is
/// symmetric.
pub proof fn lemma_ruled_out_iff_clash(x: &AccessFilters, y: &AccessFilters)
    ensures
        x.ruled_out_by_spec(y) <==> exists|c: usize|
            (x.with@.contains(c) && y.without@.contains(c)) || (x.without@.contains(c) && y.with@.contains(c)),
        x.ruled_out_by_spec(y) == y.ruled_out_by_spec(x),
{
    if exists|c: usize| (x.with@.contains(c) && y.without@.contains(c)) || (x.without@.contains(c) && y.with@.contains(c)) {
        let c = choose|c: usize|
            (x.with@.contains(c) && y.without@.contains(c)) || (x.without@.contains(c) && y.with@.contains(c));
        if x.with@.contains(c) && y.without@.contains(c) {
            assert(!x.with@.disjoint(y.without@));
            assert(!y.without@.disjoint(x.with@));
        } else {
            assert(!x.without@.disjoint(y.with@));
            assert(!y.with@.disjoint(x.without@));
        }
    }
    if !x.with@.disjoint(y.without@) {
        let c = choose|c: usize| x.with@.contains(c) && y.without@.contains(c);
        assert(x.with@.contains(c) && y.without@.contains(c));
    }
    if !x.without@.disjoint(y.with@) {
        let c = choose|c: usize| x.without@.contains(c) && y.with@.contains(c);
        assert(x.without@.contains(c) && y.with@.contains(c));
    }
    if !y.with@.disjoint(x.without@) {
        let c = choose|c: usize| y.with@.contains(c) && x.without@.contains(c);
        assert(x.without@.contains(c) && y.with@.contains(c));
    }
    if !y.without@.disjoint(x.with@) {
        let c = choose|c: usize| y.without@.contains(c) && x.with@.contains(c);
        assert(x.with@.contains(c) && y.without@.contains(c));
    }
}

/// Two accesses whose every filter set of one requires a component `c` that
/// every filter set of the other excludes can never match the same entity,
/// so they are compatible whatever they read and write (as `Query<&mut A,
/// With<B>>` and `Query<&mut A, Without<B>>` are).
pub proof fn lemma_required_vs_excluded_compatible(a: &FilteredAccess, b: &FilteredAccess, c: usize)
    requires
        forall|i: int| 0 <= i < a@.filters.len() ==> (#[trigger] a@.filters[i]).0.contains(c),
        forall|j: int| 0 <= j < b@.filters.len() ==> (#[trigger] b@.filters[j]).1.contains(c),
    ensures
        a.compatible(b),
        b.compatible(a),
{
    assert forall|i: int, j: int|
        0 <= i < a.filters().len() && 0 <= j < b.filters().len() implies a.filters()[i].ruled_out_by_spec(&b.filters()[j])
            && b.filters()[j].ruled_out_by_spec(&a.filters()[i]) by {
        assert(a@.filters[i].0.contains(c));
        assert(b@.filters[j].1.contains(c));
        lemma_ruled_out_iff_clash(&a.filters()[i], &b.filters()[j]);
    }
    assert(a.filters_disjoint(b));
    assert(b.filters_disjoint(a));
}

/// One access is a subset of another exactly when every component it
/// requires, reads or writes, the other requires, reads or writes too; in
/// particular an access that requires a component the other does not is no
/// subset of it.
pub proof fn lemma_is_subset_iff_views(a: &FilteredAccess, b: &FilteredAccess)
    ensures
        a.is_subset_spec(b) <==> {
            &&& a@.required.subset_of(b@.required)
            &&& a@.access.reads.subset_of(b@.access.reads)
            &&& a@.access.writes.subset_of(b@.access.writes)
        },
{
    assert forall|k: usize| #[trigger] a@.access.reads.contains(k) == a.access_spec().reads(k) by {}
    assert forall|k: usize| #[trigger] b@.access.reads.contains(k) == b.access_spec().reads(k) by {}
    assert forall|k: usize| #[trigger] a@.access.writes.contains(k) == a.access_spec().writes(k) by {}
    assert forall|k: usize| #[trigger] b@.access.writes.contains(k) == b.access_spec().writes(k) by {}
    let (aa, ba) = (a.access_spec(), b.access_spec());
    if a.is_subset_spec(b) {
        assert forall|k: usize| a@.access.reads.contains(k) implies b@.access.reads.contains(k) by {
            assert(aa.reads(k));
        }
        assert forall|k: usize| a@.access.writes.contains(k) implies b@.access.writes.contains(k) by {
            assert(aa.writes(k));
        }
    }
    if a@.required.subset_of(b@.required) && a@.access.reads.subset_of(b@.access.reads)
        && a@.access.writes.subset_of(b@.access.writes) {
        assert forall|k: usize| #[trigger] aa.reads(k) implies ba.reads(k) by {
            assert(a@.access.reads.contains(k));
        }
        assert forall|k: usize| #[trigger] aa.writes(k) implies ba.writes(k) by {
            assert(a@.access.writes.contains(k));
        }
    }
}

impl FilteredAccess {
    /// The unfiltered access of a well-formed filtered access is well formed.
    pub proof fn lemma_access_wf(&self)
        requires
            self.wf(),
        ensures
            self.access_spec().wf(),
    {
    }
}

} // verus!
