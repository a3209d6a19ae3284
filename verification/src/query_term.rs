//! The terms a query is built from: each kind of query data or filter, with
//! the state it was initialized with, and the component access it claims.
use crate::access::{
    access_union, access_view, all_read_view, all_written_view, lemma_view_ext, matches_everything_view, read_added_view,
    with_added_view, write_added_view, Access, AccessView, FilteredAccess, FilteredAccessView,
};
use crate::component::ComponentId;
use crate::component_id_set::{ids_set, ComponentIdSet};
use crate::query_state::matches_components;
use vstd::prelude::*;

verus! {

/// Where the values of a component are kept.
#[derive(Clone, Copy, Debug, PartialEq, Eq, Structural)]
pub enum StorageType {
    /// In the columns of archetype tables: iterable table by table.
    Table,
    /// In a sparse set keyed by entity.
    SparseSet,
}

/// One term of a query, with its initialized state.
pub enum QueryTerm {
    /// `Entity`, `EntityLocation`, `SpawnDetails`, `&Archetype` or a nested
    /// query: data that accesses no component of the entity.
    NoAccess,
    /// `&T` or `Ref<T>` for the component with this id and storage.
    Read(ComponentId, StorageType),
    /// `&mut T` or `Mut<T>` for the component with this id and storage.
    Write(ComponentId, StorageType),
    /// `EntityRef`: shared access to every component of the entity.
    EntityRef,
    /// `EntityMut`: exclusive access to every component of the entity.
    EntityMut,
    /// `FilteredEntityRef` with the access it was given.
    FilteredEntityRef(Access),
    /// `FilteredEntityMut` with the access it was given.
    FilteredEntityMut(Access),
    /// `EntityRefExcept<B>` with its access: every component but those of `B`.
    EntityRefExcept(Access),
    /// `EntityMutExcept<B>` with its access: every component but those of `B`.
    EntityMutExcept(Access),
    /// The filter `With<T>` for the component with this id and storage.
    With(ComponentId, StorageType),
}

/// The view of a filtered access whose unfiltered access was joined with
/// `state`.
pub open spec fn state_added_view(a: FilteredAccessView, state: Access) -> FilteredAccessView {
    FilteredAccessView { access: access_union(a.access, access_view(state)), ..a }
}

/// The view of `a` after `term` registered its access in it.
pub open spec fn updated_view(a: FilteredAccessView, term: QueryTerm) -> FilteredAccessView {
    match term {
        QueryTerm::NoAccess => a,
        QueryTerm::Read(id, _) => read_added_view(a, id.0),
        QueryTerm::Write(id, _) => write_added_view(a, id.0),
        QueryTerm::EntityRef => all_read_view(a),
        QueryTerm::EntityMut => all_written_view(a),
        QueryTerm::FilteredEntityRef(state) => state_added_view(a, state),
        QueryTerm::FilteredEntityMut(state) => state_added_view(a, state),
        QueryTerm::EntityRefExcept(state) => state_added_view(a, state),
        QueryTerm::EntityMutExcept(state) => state_added_view(a, state),
        QueryTerm::With(id, _) => with_added_view(a, id.0),
    }
}

/// The components an entity must have to match `term`, by the term's kind.
pub open spec fn term_requires(term: QueryTerm) -> Set<usize> {
    match term {
        QueryTerm::Read(id, _) => set![id.0],
        QueryTerm::Write(id, _) => set![id.0],
        QueryTerm::With(id, _) => set![id.0],
        _ => Set::empty(),
    }
}

/// The access `a` without what would conflict with `other`: no read or write
/// of what `other` writes, no write of what `other` reads.
pub open spec fn conflicts_removed_view(a: AccessView, other: AccessView) -> AccessView {
    AccessView {
        reads: a.reads.difference(other.writes),
        writes: a.writes.difference(other.reads),
        reads_inverted: a.reads_inverted && !other.writes_inverted,
        writes_inverted: a.writes_inverted && !other.reads_inverted,
        archetypal: a.archetypal,
    }
}

/// The access a filtered-entity term claims in
/// [`QueryTerm::provide_extra_access`]: everything available that does not
/// conflict with the access `access` already claimed, reads only for
/// `FilteredEntityRef`.
pub open spec fn provided_state_view(term: QueryTerm, access: AccessView, available: AccessView) -> AccessView {
    match term {
        QueryTerm::FilteredEntityRef(_) => conflicts_removed_view(
            AccessView { writes: Set::empty(), writes_inverted: false, ..available },
            access,
        ),
        _ => conflicts_removed_view(available, access),
    }
}

/// Whether `after` is the term `before` once it has claimed its extra access
/// (see [`QueryTerm::provide_extra_access`]) out of `available`, given the
/// access `access` claimed before: a filtered-entity term keeps its kind and
/// holds the access it claimed; any other term is unchanged.
pub open spec fn provided_term(before: QueryTerm, after: QueryTerm, access: AccessView, available: AccessView) -> bool {
    match after {
        QueryTerm::FilteredEntityRef(state) => before is FilteredEntityRef && access_view(state) == provided_state_view(
            before,
            access,
            available,
        ),
        QueryTerm::FilteredEntityMut(state) => before is FilteredEntityMut && access_view(state) == provided_state_view(
            before,
            access,
            available,
        ),
        _ => after == before,
    }
}

/// The access after [`QueryTerm::provide_extra_access`]: a filtered-entity
/// term adds the access it claimed; other terms change nothing.
pub open spec fn provided_access_view(term: QueryTerm, access: AccessView, available: AccessView) -> AccessView {
    match term {
        QueryTerm::FilteredEntityRef(_) => access_union(access, provided_state_view(term, access, available)),
        QueryTerm::FilteredEntityMut(_) => access_union(access, provided_state_view(term, access, available)),
        _ => access,
    }
}

/// The access of every component but those listed in `ids`: shared, and
/// also exclusive when `mutable`.
pub open spec fn except_view(ids: Seq<ComponentId>, mutable: bool) -> AccessView {
    AccessView {
        reads: Set::full().difference(ids_set(ids)),
        writes: if mutable {
            Set::full().difference(ids_set(ids))
        } else {
            Set::empty()
        },
        reads_inverted: true,
        writes_inverted: mutable,
        archetypal: Set::empty(),
    }
}

/// A term matches exactly the component sets that hold what it requires.
pub proof fn lemma_matches_requires(term: QueryTerm, components: Set<usize>)
    ensures
        term.matches_spec(components) == term_requires(term).subset_of(components),
{
    match term {
        QueryTerm::Read(id, _) => {
            assert(set![id.0].contains(id.0));
        },
        QueryTerm::Write(id, _) => {
            assert(set![id.0].contains(id.0));
        },
        QueryTerm::With(id, _) => {
            assert(set![id.0].contains(id.0));
        },
        _ => {},
    }
}

impl QueryTerm {
    /// Component ids leave room for the bit sets to grow, and the access of a
    /// shared term writes nothing.
    pub open spec fn wf(&self) -> bool {
        match *self {
            QueryTerm::Read(id, _) => id.0 < usize::MAX,
            QueryTerm::Write(id, _) => id.0 < usize::MAX,
            QueryTerm::With(id, _) => id.0 < usize::MAX,
            QueryTerm::FilteredEntityRef(state) => state.wf() && forall|k: usize| !#[trigger] state.writes(k),
            QueryTerm::EntityRefExcept(state) => state.wf() && forall|k: usize| !#[trigger] state.writes(k),
            QueryTerm::FilteredEntityMut(state) => state.wf(),
            QueryTerm::EntityMutExcept(state) => state.wf(),
            _ => true,
        }
    }

    /// Whether the term's access clashes with an access already in `access`:
    /// shared access to a component written before, exclusive access to one
    /// accessed before, or an access incompatible with the earlier one.
    pub open spec fn conflicts_spec(&self, access: &FilteredAccess) -> bool {
        match *self {
            QueryTerm::Read(id, _) => access.access_spec().writes(id.0),
            QueryTerm::Write(id, _) => access.access_spec().reads(id.0),
            QueryTerm::EntityRef => exists|k: usize| #[trigger] access.access_spec().writes(k),
            QueryTerm::EntityMut => exists|k: usize| #[trigger] access.access_spec().reads(k),
            QueryTerm::FilteredEntityRef(state) => !access.access_spec().compatible(&state),
            QueryTerm::FilteredEntityMut(state) => !access.access_spec().compatible(&state),
            QueryTerm::EntityRefExcept(state) => !access.access_spec().compatible(&state),
            QueryTerm::EntityMutExcept(state) => !access.access_spec().compatible(&state),
            _ => false,
        }
    }

    /// Whether an entity with the components `components` can match the term.
    pub open spec fn matches_spec(&self, components: Set<usize>) -> bool {
        match *self {
            QueryTerm::Read(id, _) => components.contains(id.0),
            QueryTerm::Write(id, _) => components.contains(id.0),
            QueryTerm::With(id, _) => components.contains(id.0),
            _ => true,
        }
    }

    /// Whether the term never writes.
    pub open spec fn is_read_only_spec(&self) -> bool {
        match *self {
            QueryTerm::Write(..) => false,
            QueryTerm::EntityMut => false,
            QueryTerm::FilteredEntityMut(..) => false,
            QueryTerm::EntityMutExcept(..) => false,
            _ => true,
        }
    }

    /// Whether the term can be iterated table by table.
    pub open spec fn is_dense_spec(&self) -> bool {
        match *self {
            QueryTerm::Read(_, storage) => storage == StorageType::Table,
            QueryTerm::Write(_, storage) => storage == StorageType::Table,
            QueryTerm::With(_, storage) => storage == StorageType::Table,
            _ => true,
        }
    }

    /// The state of `EntityRefExcept<B>`, where `ids` are the components of
    /// `B`: shared access to every other component.
    pub fn entity_ref_except(ids: &[ComponentId]) -> (r: QueryTerm)
        requires
            forall|i: int| 0 <= i < ids@.len() ==> (#[trigger] ids@[i]).0 < usize::MAX,
        ensures
            r.wf(),
            r matches QueryTerm::EntityRefExcept(state) && access_view(state) == except_view(ids@, false),
    {
        let mut access = Access::new();
        access.read_all();
        let state = except_access(access, ids, false);
        QueryTerm::EntityRefExcept(state)
    }

    /// The state of `EntityMutExcept<B>`, where `ids` are the components of
    /// `B`: exclusive access to every other component.
    pub fn entity_mut_except(ids: &[ComponentId]) -> (r: QueryTerm)
        requires
            forall|i: int| 0 <= i < ids@.len() ==> (#[trigger] ids@[i]).0 < usize::MAX,
        ensures
            r.wf(),
            r matches QueryTerm::EntityMutExcept(state) && access_view(state) == except_view(ids@, true),
    {
        let mut access = Access::new();
        access.write_all();
        let state = except_access(access, ids, true);
        QueryTerm::EntityMutExcept(state)
    }

    /// Returns whether registering this term in `access` would clash with
    /// the access already there.
    pub fn conflicts(&self, access: &FilteredAccess) -> (r: bool)
        requires
            self.wf(),
            access.wf(),
        ensures
            r == self.conflicts_spec(access),
    {
        match self {
            QueryTerm::Read(id, _) => access.access().has_write(*id),
            QueryTerm::Write(id, _) => access.access().has_read(*id),
            QueryTerm::EntityRef => access.access().has_any_write(),
            QueryTerm::EntityMut => access.access().has_any_read(),
            QueryTerm::FilteredEntityRef(state) => !access.access().is_compatible(state),
            QueryTerm::FilteredEntityMut(state) => !access.access().is_compatible(state),
            QueryTerm::EntityRefExcept(state) => !access.access().is_compatible(state),
            QueryTerm::EntityMutExcept(state) => !access.access().is_compatible(state),
            _ => false,
        }
    }

    /// Adds the component access of this term to `access`.
    ///
    /// A term whose access clashes with the access already registered is
    /// refused: see [`QueryTerm::conflicts`].
    pub fn update_component_access(&self, access: &mut FilteredAccess)
        requires
            self.wf(),
            old(access).wf(),
            !self.conflicts_spec(old(access)),
        ensures
            final(access).wf(),
            final(access)@ == updated_view(old(access)@, *self),
    {
        match self {
            QueryTerm::NoAccess => {},
            QueryTerm::Read(id, _) => access.add_read(*id),
            QueryTerm::Write(id, _) => access.add_write(*id),
            QueryTerm::EntityRef => access.read_all(),
            QueryTerm::EntityMut => access.write_all(),
            QueryTerm::FilteredEntityRef(state) => extend_with_state(access, state),
            QueryTerm::FilteredEntityMut(state) => extend_with_state(access, state),
            QueryTerm::EntityRefExcept(state) => extend_with_state(access, state),
            QueryTerm::EntityMutExcept(state) => extend_with_state(access, state),
            QueryTerm::With(id, _) => access.and_with(*id),
        }
    }

    /// Lets a filtered-entity term claim, out of `available_access`, every
    /// access that does not conflict with the access already claimed in
    /// `access` (only reads for `FilteredEntityRef`), and adds it to `access`.
    /// Other terms claim nothing. Used when the available access is only known
    /// after the term was created: from a query builder or when transmuting.
    pub fn provide_extra_access(&mut self, access: &mut Access, available_access: &Access)
        requires
            old(self).wf(),
            old(access).wf(),
            available_access.wf(),
        ensures
            final(self).wf(),
            final(access).wf(),
            term_requires(*final(self)) == term_requires(*old(self)),
            final(self).is_read_only_spec() == old(self).is_read_only_spec(),
            final(self).is_dense_spec() == old(self).is_dense_spec(),
            access_view(*final(access)) == provided_access_view(
                *old(self),
                access_view(*old(access)),
                access_view(*available_access),
            ),
            provided_term(*old(self), *final(self), access_view(*old(access)), access_view(*available_access)),
    {
        let ghost old_term = *self;
        let ghost a0 = access_view(*access);
        let ghost av = access_view(*available_access);
        match self {
            QueryTerm::FilteredEntityRef(state) => {
                // Start with the entire available access, since that is the
                // most that can possibly be accessed; keep only reads, and
                // drop what conflicts with the access claimed so far.
                *state = available_access.clone();
                state.clear_writes();
                state.remove_conflicting_access(access);
                access.extend(state);
                proof {
                    assert(access_view(*state).reads =~= provided_state_view(old_term, a0, av).reads);
                    assert(access_view(*state).writes =~= provided_state_view(old_term, a0, av).writes);
                    assert(access_view(*access).reads =~= provided_access_view(old_term, a0, av).reads);
                    assert(access_view(*access).writes =~= provided_access_view(old_term, a0, av).writes);
                }
            },
            QueryTerm::FilteredEntityMut(state) => {
                *state = available_access.clone();
                state.remove_conflicting_access(access);
                access.extend(state);
                proof {
                    assert(access_view(*state).reads =~= provided_state_view(old_term, a0, av).reads);
                    assert(access_view(*state).writes =~= provided_state_view(old_term, a0, av).writes);
                    assert(access_view(*access).reads =~= provided_access_view(old_term, a0, av).reads);
                    assert(access_view(*access).writes =~= provided_access_view(old_term, a0, av).writes);
                }
            },
            _ => {},
        }
    }

    /// Returns whether an entity with the components `components` can match
    /// this term.
    pub fn matches_component_set(&self, components: &ComponentIdSet) -> (r: bool)
        ensures
            r == self.matches_spec(components@),
    {
        match self {
            QueryTerm::Read(id, _) => components.contains(*id),
            QueryTerm::Write(id, _) => components.contains(*id),
            QueryTerm::With(id, _) => components.contains(*id),
            _ => true,
        }
    }

    /// Returns whether the term never writes.
    pub fn is_read_only(&self) -> (r: bool)
        ensures
            r == self.is_read_only_spec(),
    {
        match self {
            QueryTerm::Write(..) => false,
            QueryTerm::EntityMut => false,
            QueryTerm::FilteredEntityMut(..) => false,
            QueryTerm::EntityMutExcept(..) => false,
            _ => true,
        }
    }

    /// Returns whether the term can be iterated table by table.
    pub fn is_dense(&self) -> (r: bool)
        ensures
            r == self.is_dense_spec(),
    {
        match self {
            QueryTerm::Read(_, storage) => matches!(storage, StorageType::Table),
            QueryTerm::Write(_, storage) => matches!(storage, StorageType::Table),
            QueryTerm::With(_, storage) => matches!(storage, StorageType::Table),
            _ => true,
        }
    }
}

/// Joins `state` into the unfiltered access of `access`.
fn extend_with_state(access: &mut FilteredAccess, state: &Access)
    requires
        old(access).wf(),
        state.wf(),
    ensures
        final(access).wf(),
        final(access)@ == state_added_view(old(access)@, *state),
{
    let ghost before = *access;
    let a = access.access_mut();
    a.extend(state);
    proof {
        lemma_view_ext(*access, state_added_view(before@, *state));
    }
}

/// Every filter set of the access a term registers requires what the term
/// itself requires: an entity matched by the access is matched by the term.
pub proof fn lemma_access_matches_term(a: FilteredAccessView, term: QueryTerm, components: Set<usize>)
    requires
        matches_components(updated_view(a, term), components),
    ensures
        term.matches_spec(components),
{
    let u = updated_view(a, term);
    let i = choose|i: int|
        0 <= i < u.filters.len() && (#[trigger] u.filters[i]).0.subset_of(components)
            && u.filters[i].1.disjoint(components);
    match term {
        QueryTerm::Read(id, _) => {
            assert(u.filters[i].0.contains(id.0));
        },
        QueryTerm::Write(id, _) => {
            assert(u.filters[i].0.contains(id.0));
        },
        QueryTerm::With(id, _) => {
            assert(u.filters[i].0.contains(id.0));
        },
        _ => {},
    }
}

/// A read-only term adds no write to the access it registers in.
pub proof fn lemma_read_only_term_adds_no_write(a: FilteredAccessView, term: QueryTerm)
    requires
        term.wf(),
        term.is_read_only_spec(),
    ensures
        updated_view(a, term).access.writes == a.access.writes,
{
    match term {
        QueryTerm::FilteredEntityRef(state) => {
            assert(access_view(state).writes =~= Set::<usize>::empty());
            assert(a.access.writes.union(Set::<usize>::empty()) =~= a.access.writes);
        },
        QueryTerm::EntityRefExcept(state) => {
            assert(access_view(state).writes =~= Set::<usize>::empty());
            assert(a.access.writes.union(Set::<usize>::empty()) =~= a.access.writes);
        },
        _ => {},
    }
}

/// Whether `term` clashes with the unfiltered access `a`: the view of
/// [`QueryTerm::conflicts_spec`].
pub open spec fn conflicts_view(term: QueryTerm, a: AccessView) -> bool {
    match term {
        QueryTerm::Read(id, _) => a.writes.contains(id.0),
        QueryTerm::Write(id, _) => a.reads.contains(id.0),
        QueryTerm::EntityRef => exists|k: usize| #[trigger] a.writes.contains(k),
        QueryTerm::EntityMut => exists|k: usize| #[trigger] a.reads.contains(k),
        QueryTerm::FilteredEntityRef(state) => state_conflicts_view(a, access_view(state)),
        QueryTerm::FilteredEntityMut(state) => state_conflicts_view(a, access_view(state)),
        QueryTerm::EntityRefExcept(state) => state_conflicts_view(a, access_view(state)),
        QueryTerm::EntityMutExcept(state) => state_conflicts_view(a, access_view(state)),
        _ => false,
    }
}

/// Whether the accesses `a` and `b` conflict on some component.
pub open spec fn state_conflicts_view(a: AccessView, b: AccessView) -> bool {
    exists|k: usize|
        #![trigger a.writes.contains(k), b.reads.contains(k)]
        #![trigger b.writes.contains(k), a.reads.contains(k)]
        (a.writes.contains(k) && b.reads.contains(k)) || (b.writes.contains(k) && a.reads.contains(k))
}

/// [`conflicts_view`] is the view of [`QueryTerm::conflicts_spec`].
pub proof fn lemma_conflicts_view(term: QueryTerm, access: &FilteredAccess)
    ensures
        term.conflicts_spec(access) == conflicts_view(term, access@.access),
{
    let a = access.access_spec();
    match term {
        QueryTerm::EntityRef => {
            if exists|k: usize| #[trigger] a.writes(k) {
                let k = choose|k: usize| #[trigger] a.writes(k);
                assert(access@.access.writes.contains(k));
            }
        },
        QueryTerm::EntityMut => {
            if exists|k: usize| #[trigger] a.reads(k) {
                let k = choose|k: usize| #[trigger] a.reads(k);
                assert(access@.access.reads.contains(k));
            }
        },
        QueryTerm::FilteredEntityRef(state) => lemma_state_conflicts_view(a, state),
        QueryTerm::FilteredEntityMut(state) => lemma_state_conflicts_view(a, state),
        QueryTerm::EntityRefExcept(state) => lemma_state_conflicts_view(a, state),
        QueryTerm::EntityMutExcept(state) => lemma_state_conflicts_view(a, state),
        _ => {},
    }
}

/// Two accesses are incompatible exactly when their views conflict.
proof fn lemma_state_conflicts_view(a: Access, b: Access)
    ensures
        !a.compatible(&b) == state_conflicts_view(access_view(a), access_view(b)),
{
    if !a.compatible(&b) {
        let k = choose|k: usize| #[trigger] a.conflicts_on(&b, k);
        assert(access_view(a).writes.contains(k) == a.writes(k));
        assert(access_view(b).reads.contains(k) == b.reads(k));
        assert(access_view(b).writes.contains(k) == b.writes(k));
        assert(access_view(a).reads.contains(k) == a.reads(k));
    }
    if state_conflicts_view(access_view(a), access_view(b)) {
        let k = choose|k: usize|
            (access_view(a).writes.contains(k) && access_view(b).reads.contains(k)) || (access_view(
                b,
            ).writes.contains(k) && access_view(a).reads.contains(k));
        assert(a.conflicts_on(&b, k));
    }
}

/// No term clashes with an access that reads and writes nothing.
pub proof fn lemma_no_conflict_with_empty(term: &QueryTerm, access: &FilteredAccess)
    requires
        access.access_spec().is_empty_spec(),
        forall|k: usize| !#[trigger] access.access_spec().writes(k),
    ensures
        !term.conflicts_spec(access),
{
    match *term {
        QueryTerm::FilteredEntityRef(state) => {
            assert forall|k: usize| !#[trigger] access.access_spec().conflicts_on(&state, k) by {
                assert(!access.access_spec().reads(k));
            }
        },
        QueryTerm::FilteredEntityMut(state) => {
            assert forall|k: usize| !#[trigger] access.access_spec().conflicts_on(&state, k) by {
                assert(!access.access_spec().reads(k));
            }
        },
        QueryTerm::EntityRefExcept(state) => {
            assert forall|k: usize| !#[trigger] access.access_spec().conflicts_on(&state, k) by {
                assert(!access.access_spec().reads(k));
            }
        },
        QueryTerm::EntityMutExcept(state) => {
            assert forall|k: usize| !#[trigger] access.access_spec().conflicts_on(&state, k) by {
                assert(!access.access_spec().reads(k));
            }
        },
        QueryTerm::EntityMut => {
            assert(!exists|k: usize| #[trigger] access.access_spec().reads(k));
        },
        QueryTerm::Write(id, _) => {
            assert(!access.access_spec().reads(id.0));
        },
        _ => {},
    }
}

/// Removes the access to each component of `ids` from `access`, which reads
/// everything (and writes everything when `mutable`, nothing otherwise).
fn except_access(access: Access, ids: &[ComponentId], mutable: bool) -> (r: Access)
    requires
        access.wf(),
        forall|k: usize| #[trigger] access.reads(k),
        forall|k: usize| #[trigger] access.writes(k) == mutable,
        access.reads_inverted(),
        access.writes_inverted() == mutable,
        access.archetypal_set() == Set::<usize>::empty(),
        forall|i: int| 0 <= i < ids@.len() ==> (#[trigger] ids@[i]).0 < usize::MAX,
    ensures
        r.wf(),
        access_view(r) == except_view(ids@, mutable),
        mutable || forall|k: usize| !#[trigger] r.writes(k),
{
    let mut access = access;
    let mut i: usize = 0;
    while i < ids.len()
        invariant
            i <= ids@.len(),
            access.wf(),
            forall|j: int| 0 <= j < ids@.len() ==> (#[trigger] ids@[j]).0 < usize::MAX,
            forall|k: usize| #[trigger] access.reads(k) == !ids_set(ids@.take(i as int)).contains(k),
            forall|k: usize| #[trigger] access.writes(k) == (mutable && !ids_set(ids@.take(i as int)).contains(k)),
            access.reads_inverted(),
            access.writes_inverted() == mutable,
            access.archetypal_set() == Set::<usize>::empty(),
        decreases ids@.len() - i,
    {
        let ghost before = access;
        access.remove_read(ids[i]);
        proof {
            assert forall|k: usize| #[trigger] ids_set(ids@.take(i + 1)).contains(k) == (ids_set(
                ids@.take(i as int),
            ).contains(k) || k == ids@[i as int].0) by {
                if ids_set(ids@.take(i + 1)).contains(k) {
                    let j = choose|j: int| 0 <= j < ids@.take(i + 1).len() && #[trigger] ids@.take(i + 1)[j].0 == k;
                    if j < i {
                        assert(ids@.take(i as int)[j].0 == k);
                    }
                }
                if ids_set(ids@.take(i as int)).contains(k) {
                    let j = choose|j: int| 0 <= j < ids@.take(i as int).len() && #[trigger] ids@.take(i as int)[j].0 == k;
                    assert(ids@.take(i + 1)[j].0 == k);
                }
                if k == ids@[i as int].0 {
                    assert(ids@.take(i + 1)[i as int].0 == k);
                }
            }
        }
        i = i + 1;
    }
    proof {
        assert(ids@.take(ids@.len() as int) == ids@);
        assert(access_view(access).reads =~= except_view(ids@, mutable).reads);
        assert(access_view(access).writes =~= except_view(ids@, mutable).writes);
    }
    access
}

/// A term clashes with the access already registered exactly when the access
/// the term claims on its own (what it registers in an empty access) and the
/// registered access conflict on some component: one of them writes it and
/// the other reads it. So `&A` clashes with an earlier `&mut A`, and
/// `EntityRefExcept<B>` with an earlier write of any component but those of
/// `B`.
pub proof fn lemma_conflicts_iff_component_clash(term: QueryTerm, access: &FilteredAccess)
    requires
        term.wf(),
        access.wf(),
    ensures
        term.conflicts_spec(access) <==> exists|k: usize|
            #![trigger updated_view(matches_everything_view(), term).access.writes.contains(k)]
            #![trigger updated_view(matches_everything_view(), term).access.reads.contains(k)]
            (updated_view(matches_everything_view(), term).access.writes.contains(k) && access@.access.reads.contains(k))
                || (access@.access.writes.contains(k) && updated_view(matches_everything_view(), term).access.reads.contains(k)),
{
    let a = access@.access;
    let t = updated_view(matches_everything_view(), term).access;
    access.lemma_access_wf();
    access.access_spec().lemma_wf();
    assert forall|k: usize| a.writes.contains(k) implies a.reads.contains(k) by {
        assert(access.access_spec().writes(k));
    }
    lemma_conflicts_view(term, access);
    let clash = exists|k: usize|
        #![trigger t.writes.contains(k)]
        #![trigger t.reads.contains(k)]
        (t.writes.contains(k) && a.reads.contains(k)) || (a.writes.contains(k) && t.reads.contains(k));
    match term {
        QueryTerm::Read(id, _) => {
            if a.writes.contains(id.0) {
                assert(t.reads.contains(id.0));
            }
            if clash {
                let k = choose|k: usize| (t.writes.contains(k) && a.reads.contains(k)) || (a.writes.contains(k) && t.reads.contains(k));
                assert(t.reads.contains(k));
                assert(k == id.0);
            }
        },
        QueryTerm::Write(id, _) => {
            if a.reads.contains(id.0) {
                assert(t.writes.contains(id.0));
            }
            if clash {
                let k = choose|k: usize| (t.writes.contains(k) && a.reads.contains(k)) || (a.writes.contains(k) && t.reads.contains(k));
                assert(k == id.0);
            }
        },
        QueryTerm::EntityRef => {
            if exists|k: usize| #[trigger] a.writes.contains(k) {
                let k = choose|k: usize| #[trigger] a.writes.contains(k);
                assert(t.reads.contains(k));
            }
            if clash {
                let k = choose|k: usize| (t.writes.contains(k) && a.reads.contains(k)) || (a.writes.contains(k) && t.reads.contains(k));
                assert(a.writes.contains(k));
            }
        },
        QueryTerm::EntityMut => {
            if exists|k: usize| #[trigger] a.reads.contains(k) {
                let k = choose|k: usize| #[trigger] a.reads.contains(k);
                assert(t.writes.contains(k));
            }
            if clash {
                let k = choose|k: usize| (t.writes.contains(k) && a.reads.contains(k)) || (a.writes.contains(k) && t.reads.contains(k));
                assert(a.reads.contains(k));
            }
        },
        QueryTerm::FilteredEntityRef(state) | QueryTerm::FilteredEntityMut(state) | QueryTerm::EntityRefExcept(state)
        | QueryTerm::EntityMutExcept(state) => {
            let v = access_view(state);
            assert(t.reads =~= v.reads);
            assert(t.writes =~= v.writes);
            if clash {
                let k = choose|k: usize| (t.writes.contains(k) && a.reads.contains(k)) || (a.writes.contains(k) && t.reads.contains(k));
                assert((a.writes.contains(k) && v.reads.contains(k)) || (v.writes.contains(k) && a.reads.contains(k)));
            }
            if state_conflicts_view(a, v) {
                let k = choose|k: usize| (a.writes.contains(k) && v.reads.contains(k)) || (v.writes.contains(k) && a.reads.contains(k));
                assert((t.writes.contains(k) && a.reads.contains(k)) || (a.writes.contains(k) && t.reads.contains(k)));
            }
        },
        _ => {
            assert(t.reads =~= Set::<usize>::empty());
            assert(t.writes =~= Set::<usize>::empty());
        },
    }
}

} // verus!
