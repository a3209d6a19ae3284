//! The state of a query: its terms, its access, and the archetypes and
//! tables of a world that it matches.
//!
//! A world's archetypes are described here by what the query state reads of
//! them: the table each one is stored in and the components it holds. The
//! query's data and filter are [`QueryTerm`]s; an archetype matches when both
//! terms accept its components and one of the filter sets of the query's
//! [`FilteredAccess`] does.
use crate::access::{
    access_union, access_view, extended_view, lemma_view_ext, matches_everything_view, Access,
    AccessView, FilteredAccess, FilteredAccessSet, FilteredAccessView,
};
use crate::component::ComponentId;
use crate::component_id_set::{enumerates, ComponentIdSet};
use crate::fixed_bit_set::{
    fbs_clone, fbs_contains, fbs_grow_and_insert, fbs_intersect_with, fbs_new, fbs_ones,
    fbs_ones_vec, fbs_wf,
};
use crate::query_builder::{dense_for, QueryBuilder};
use crate::query_term::{
    lemma_access_matches_term, lemma_matches_requires, lemma_no_conflict_with_empty,
    provided_access_view, provided_term, term_requires, updated_view, QueryTerm,
};
use fixedbitset::FixedBitSet;
use vstd::prelude::*;

verus! {

/// Identifies a world.
#[derive(Clone, Copy, Debug, PartialEq, Eq, Hash, Structural)]
pub struct WorldId(pub u64);

/// What a query state reads of an archetype.
pub ghost struct ArchetypeView {
    /// The archetype's id: its position among the world's archetypes.
    pub id: usize,
    /// The table that stores the archetype's entities.
    pub table_id: usize,
    /// The components of the archetype's entities.
    pub components: Set<usize>,
}

/// An archetype, as a query state sees it.
pub struct ArchetypeInfo {
    id: usize,
    table_id: usize,
    components: ComponentIdSet,
}

impl View for ArchetypeInfo {
    type V = ArchetypeView;

    closed spec fn view(&self) -> ArchetypeView {
        ArchetypeView { id: self.id, table_id: self.table_id, components: self.components@ }
    }
}

impl ArchetypeInfo {
    /// Returns the archetype's id.
    pub fn id(&self) -> (r: usize)
        ensures
            r == self@.id,
    {
        self.id
    }

    /// Returns the table that stores the archetype's entities.
    pub fn table_id(&self) -> (r: usize)
        ensures
            r == self@.table_id,
    {
        self.table_id
    }

    /// Returns whether the archetype's entities have component `id`.
    pub fn contains(&self, id: ComponentId) -> (r: bool)
        ensures
            r == self@.components.contains(id.0),
    {
        self.components.contains(id)
    }
}

/// The archetypes of a world, in the order they were created; an
/// archetype's id is its position.
pub struct Archetypes {
    archetypes: Vec<ArchetypeInfo>,
}

impl View for Archetypes {
    type V = Seq<ArchetypeView>;

    closed spec fn view(&self) -> Seq<ArchetypeView> {
        Seq::new(self.archetypes@.len(), |i: int| self.archetypes@[i]@)
    }
}

/// The ids of the archetypes among the first `n` of `archs` that have
/// component `c`, in increasing order.
pub open spec fn archetypes_with(archs: Seq<ArchetypeView>, c: usize, n: nat) -> Seq<usize>
    decreases n,
{
    if n == 0 || n > archs.len() {
        Seq::empty()
    } else {
        let prev = archetypes_with(archs, c, (n - 1) as nat);
        if archs[n - 1].components.contains(c) {
            prev.push((n - 1) as usize)
        } else {
            prev
        }
    }
}

/// The archetypes are well formed: each one's id is its position, its table
/// id leaves room for one more bit in a bit set, and its component set is
/// well formed.
pub open spec fn archetypes_wf(archs: Seq<ArchetypeView>) -> bool {
    &&& archs.len() < usize::MAX
    &&& forall|i: int| 0 <= i < archs.len() ==> (#[trigger] archs[i]).id == i && archs[i].table_id < usize::MAX
}

impl Archetypes {
    /// The archetypes are well formed.
    pub closed spec fn wf(&self) -> bool {
        &&& archetypes_wf(self@)
        &&& forall|i: int| 0 <= i < self.archetypes@.len() ==> (#[trigger] self.archetypes@[i]).components.wf()
    }

    /// No archetype.
    pub fn new() -> (r: Archetypes)
        ensures
            r.wf(),
            r@.len() == 0,
    {
        let r = Archetypes { archetypes: Vec::new() };
        assert(r@.len() == 0);
        r
    }

    /// Adds an archetype stored in table `table_id`, whose entities have the
    /// components `components`, and returns its id.
    pub fn push(&mut self, table_id: usize, components: ComponentIdSet) -> (id: usize)
        requires
            old(self).wf(),
            components.wf(),
            table_id < usize::MAX,
            old(self)@.len() + 1 < usize::MAX,
        ensures
            final(self).wf(),
            id == old(self)@.len(),
            final(self)@ == old(self)@.push(
                ArchetypeView { id: old(self)@.len() as usize, table_id, components: components@ },
            ),
    {
        let id = self.archetypes.len();
        let ghost before = self.archetypes@;
        self.archetypes.push(ArchetypeInfo { id, table_id, components });
        proof {
            assert(self@ =~= old(self)@.push(
                ArchetypeView { id: old(self)@.len() as usize, table_id, components: components@ },
            ));
            assert forall|i: int| 0 <= i < self.archetypes@.len() implies (#[trigger] self.archetypes@[i]).components.wf() by {
                if i < before.len() {
                    assert(self.archetypes@[i] == before[i]);
                }
            }
        }
        id
    }

    /// The generation of the archetypes: how many there are.
    pub fn generation(&self) -> (r: usize)
        ensures
            r == self@.len(),
    {
        self.archetypes.len()
    }

    /// Returns the archetype with id `id`, if there is one.
    pub fn get(&self, id: usize) -> (r: Option<&ArchetypeInfo>)
        ensures
            r is Some <==> id < self@.len(),
            r matches Some(a) ==> a@ == self@[id as int],
    {
        if id < self.archetypes.len() {
            Some(&self.archetypes[id])
        } else {
            None
        }
    }

    /// Returns the ids of the archetypes that have component `c`, in
    /// increasing order.
    pub fn component_archetypes(&self, c: ComponentId) -> (r: Vec<usize>)
        requires
            self.wf(),
        ensures
            r@ == archetypes_with(self@, c.0, self@.len()),
    {
        let mut r: Vec<usize> = Vec::new();
        let mut i: usize = 0;
        while i < self.archetypes.len()
            invariant
                i <= self@.len(),
                self@.len() == self.archetypes@.len(),
                r@ == archetypes_with(self@, c.0, i as nat),
            decreases self@.len() - i,
        {
            let has = self.archetypes[i].components.contains(c);
            assert(self@[i as int] == self.archetypes@[i as int]@);
            if has {
                r.push(i);
            }
            i = i + 1;
        }
        r
    }
}

/// Whether an entity with the components `components` matches the filters of
/// `access`: one of its filter sets has all its `With` components among them
/// and none of its `Without` components.
pub open spec fn matches_components(access: FilteredAccessView, components: Set<usize>) -> bool {
    exists|i: int|
        0 <= i < access.filters.len() && (#[trigger] access.filters[i]).0.subset_of(components)
            && access.filters[i].1.disjoint(components)
}

/// The abstract state of a [`QueryState`].
pub ghost struct QueryStateView {
    /// The world the state was created for.
    pub world_id: WorldId,
    /// How many of the world's archetypes the state has seen.
    pub generation: nat,
    /// The tables of the matched archetypes.
    pub matched_tables: Set<usize>,
    /// The matched archetypes.
    pub matched_archetypes: Set<usize>,
    /// The access of the query.
    pub access: FilteredAccessView,
    /// The storages to iterate, in order: tables when dense, archetypes
    /// otherwise.
    pub storage_ids: Seq<usize>,
    /// Whether iteration goes table by table.
    pub is_dense: bool,
    /// The components that the query's data and filter terms require by
    /// their kind.
    pub term_components: Set<usize>,
    /// Whether the query's data term never writes.
    pub read_only: bool,
}

/// Whether the query of `v` matches an entity with the components
/// `components`: its terms allow them, and so does its access.
pub open spec fn state_matches(v: QueryStateView, components: Set<usize>) -> bool {
    v.term_components.subset_of(components) && matches_components(v.access, components)
}

/// The state after archetype `a` has been offered to it: when the query
/// matches `a`, the archetype and its table are recorded, each once, and the
/// storage to iterate is appended when it is new.
pub open spec fn after_new_archetype(v: QueryStateView, a: ArchetypeView) -> QueryStateView {
    if state_matches(v, a.components) {
        let v1 = if v.matched_archetypes.contains(a.id) {
            v
        } else {
            QueryStateView {
                matched_archetypes: v.matched_archetypes.insert(a.id),
                storage_ids: if v.is_dense {
                    v.storage_ids
                } else {
                    v.storage_ids.push(a.id)
                },
                ..v
            }
        };
        if v1.matched_tables.contains(a.table_id) {
            v1
        } else {
            QueryStateView {
                matched_tables: v1.matched_tables.insert(a.table_id),
                storage_ids: if v1.is_dense {
                    v1.storage_ids.push(a.table_id)
                } else {
                    v1.storage_ids
                },
                ..v1
            }
        }
    } else {
        v
    }
}

/// The state after the archetypes with the first `n` ids of `ids` have been
/// offered to it in order, skipping ids below `from`.
pub open spec fn after_visits(
    v: QueryStateView,
    archs: Seq<ArchetypeView>,
    ids: Seq<usize>,
    from: nat,
    n: nat,
) -> QueryStateView
    decreases n,
{
    if n == 0 || n > ids.len() {
        v
    } else {
        let prev = after_visits(v, archs, ids, from, (n - 1) as nat);
        if ids[n - 1] < from {
            prev
        } else {
            after_new_archetype(prev, archs[ids[n - 1] as int])
        }
    }
}

/// The archetypes that have the required component with the fewest
/// archetypes: among the first `n` of `required`, the first whose list of
/// archetypes is shortest and not empty.
pub open spec fn fewest_archetypes(
    archs: Seq<ArchetypeView>,
    required: Seq<ComponentId>,
    n: nat,
) -> Option<Seq<usize>>
    decreases n,
{
    if n == 0 || n > required.len() {
        None
    } else {
        let prev = fewest_archetypes(archs, required, (n - 1) as nat);
        let candidates = archetypes_with(archs, required[n - 1].0, archs.len());
        if candidates.len() == 0 {
            prev
        } else {
            match prev {
                None => Some(candidates),
                Some(best) => if candidates.len() < best.len() {
                    Some(candidates)
                } else {
                    prev
                },
            }
        }
    }
}

/// The ids `from..to`, in increasing order.
pub open spec fn id_range(from: nat, to: nat) -> Seq<usize> {
    Seq::new((to - from) as nat, |i: int| (from + i) as usize)
}

/// The state after it has caught up with the archetypes `archs`, whose
/// required components are listed by `required`: with no required component
/// every new archetype is offered to it; otherwise, only the new archetypes
/// that have the required component with the fewest archetypes.
pub open spec fn after_update(
    v: QueryStateView,
    archs: Seq<ArchetypeView>,
    required: Seq<ComponentId>,
) -> QueryStateView {
    if v.access.required == Set::<usize>::empty() {
        let ids = id_range(v.generation, archs.len());
        QueryStateView {
            generation: archs.len(),
            ..after_visits(v, archs, ids, v.generation, ids.len())
        }
    } else if v.generation == archs.len() {
        v
    } else {
        match fewest_archetypes(archs, required, required.len()) {
            None => QueryStateView { generation: archs.len(), ..v },
            Some(ids) => QueryStateView {
                generation: archs.len(),
                ..after_visits(v, archs, ids, v.generation, ids.len())
            },
        }
    }
}

/// The state of a query: its access, and the archetypes and tables of its
/// world that it matches.
pub struct QueryState {
    world_id: WorldId,
    archetype_generation: usize,
    /// The tables matched by this query.
    matched_tables: FixedBitSet,
    /// The archetypes matched by this query.
    matched_archetypes: FixedBitSet,
    /// The access of the query's data and filter combined.
    component_access: FilteredAccess,
    /// The storages to iterate: tables when dense, archetypes otherwise.
    matched_storage_ids: Vec<usize>,
    /// Whether this query iterates table by table.
    is_dense: bool,
    /// The state of the query's data term.
    fetch_state: QueryTerm,
    /// The state of the query's filter term.
    filter_state: QueryTerm,
}

impl View for QueryState {
    type V = QueryStateView;

    closed spec fn view(&self) -> QueryStateView {
        QueryStateView {
            world_id: self.world_id,
            generation: self.archetype_generation as nat,
            matched_tables: fbs_ones(self.matched_tables),
            matched_archetypes: fbs_ones(self.matched_archetypes),
            access: self.component_access@,
            storage_ids: self.matched_storage_ids@,
            is_dense: self.is_dense,
            term_components: term_requires(self.fetch_state).union(term_requires(self.filter_state)),
            read_only: self.fetch_state.is_read_only_spec(),
        }
    }
}

/// The state of a query with the data term `fetch` and the filter term
/// `filter` over `access` in world `world_id`, before it has seen any
/// archetype.
pub open spec fn fresh_state(
    world_id: WorldId,
    fetch: QueryTerm,
    filter: QueryTerm,
    access: FilteredAccessView,
    is_dense: bool,
) -> QueryStateView {
    QueryStateView {
        world_id,
        generation: 0,
        matched_tables: Set::empty(),
        matched_archetypes: Set::empty(),
        access,
        storage_ids: Seq::empty(),
        is_dense,
        term_components: term_requires(fetch).union(term_requires(filter)),
        read_only: fetch.is_read_only_spec(),
    }
}

/// The access that new data and filter terms need, the data term claiming
/// extra access out of `available`: each registers its access apart, and
/// the two are combined.
pub open spec fn terms_access_view(fetch: QueryTerm, filter: QueryTerm, available: AccessView) -> FilteredAccessView {
    let d = updated_view(matches_everything_view(), fetch);
    extended_view(
        FilteredAccessView { access: provided_access_view(fetch, d.access, available), ..d },
        updated_view(matches_everything_view(), filter),
    )
}

/// The state made for new terms `fetch` and `filter` out of `v`, with the
/// access `access`.
pub open spec fn retermed_state(
    v: QueryStateView,
    fetch: QueryTerm,
    filter: QueryTerm,
    access: FilteredAccessView,
) -> QueryStateView {
    QueryStateView {
        access,
        term_components: term_requires(fetch).union(term_requires(filter)),
        read_only: fetch.is_read_only_spec(),
        ..v
    }
}

/// The access with every write removed.
pub open spec fn writes_cleared(a: AccessView) -> AccessView {
    AccessView { writes: Set::empty(), writes_inverted: false, ..a }
}

/// Whatever `a` requires, `b` requires, and whatever `a` reads or writes, `b`
/// does too.
pub open spec fn view_is_subset(a: FilteredAccessView, b: FilteredAccessView) -> bool {
    &&& a.required.subset_of(b.required)
    &&& a.access.reads.subset_of(b.access.reads)
    &&& a.access.writes.subset_of(b.access.writes)
}

/// Whether the access writes some component.
pub open spec fn view_has_any_write(a: AccessView) -> bool {
    exists|k: usize| #[trigger] a.writes.contains(k)
}

/// The access a transmuted state keeps: that of the state it was made from,
/// without its writes when that state's data is read-only.
pub open spec fn transmuted_view(a: FilteredAccessView, read_only: bool) -> FilteredAccessView {
    if read_only {
        FilteredAccessView { access: writes_cleared(a.access), ..a }
    } else {
        a
    }
}

/// The access of two joined states: both accesses combined, except that the
/// writes of a state that was made read-only are dropped.
pub open spec fn joined_view(
    a: FilteredAccessView,
    b: FilteredAccessView,
    a_read_only: bool,
    b_read_only: bool,
) -> FilteredAccessView {
    let j = extended_view(a, b);
    if (a_read_only && view_has_any_write(a.access)) || (b_read_only && view_has_any_write(
        b.access,
    )) {
        let c = writes_cleared(j.access);
        let c1 = if !a_read_only {
            access_union(c, a.access)
        } else {
            c
        };
        let c2 = if !b_read_only {
            access_union(c1, b.access)
        } else {
            c1
        };
        FilteredAccessView { access: c2, ..j }
    } else {
        j
    }
}

/// `ids` lists the members of `set` once each, in increasing order.
pub open spec fn lists_increasing(ids: Seq<usize>, set: Set<usize>) -> bool {
    &&& forall|i: int, j: int| 0 <= i < j < ids.len() ==> ids[i] < ids[j]
    &&& forall|k: usize| #[trigger] ids.contains(k) == set.contains(k)
}

/// Copies a list of storage ids.
pub(crate) fn copy_ids(ids: &Vec<usize>) -> (r: Vec<usize>)
    ensures
        r@ == ids@,
{
    let mut r: Vec<usize> = Vec::new();
    let mut i: usize = 0;
    while i < ids.len()
        invariant
            i <= ids@.len(),
            r@ == ids@.take(i as int),
        decreases ids@.len() - i,
    {
        r.push(ids[i]);
        i = i + 1;
        assert(r@ =~= ids@.take(i as int));
    }
    assert(r@ =~= ids@);
    r
}

/// Removes the writes of an access, through `access_mut`.
fn clear_access_writes(access: &mut FilteredAccess)
    requires
        old(access).wf(),
    ensures
        final(access).wf(),
        final(access)@ == (FilteredAccessView { access: writes_cleared(old(access)@.access), ..old(access)@ }),
{
    let ghost before = access@;
    access.access_mut().clear_writes();
    assert(access@.access.writes =~= Set::<usize>::empty());
    assert(access@.access.reads =~= before.access.reads);
    assert(access@.filters =~= before.filters);
}

/// Adds the unfiltered access `other` to `access`, through `access_mut`.
fn extend_access_with(access: &mut FilteredAccess, other: &Access)
    requires
        old(access).wf(),
        other.wf(),
    ensures
        final(access).wf(),
        final(access)@ == (FilteredAccessView {
            access: access_union(old(access)@.access, access_view(*other)),
            ..old(access)@
        }),
{
    let ghost before = access@;
    access.access_mut().extend(other);
    assert(access@.access.writes =~= before.access.writes.union(access_view(*other).writes));
    assert(access@.access.reads =~= before.access.reads.union(access_view(*other).reads));
    assert(access@.filters =~= before.filters);
}

impl QueryState {
    /// The access of the query.
    pub closed spec fn access_spec(&self) -> FilteredAccess {
        self.component_access
    }

    /// The state of the query's data term.
    pub closed spec fn fetch_term(&self) -> QueryTerm {
        self.fetch_state
    }

    /// The state of the query's filter term.
    pub closed spec fn filter_term(&self) -> QueryTerm {
        self.filter_state
    }

    /// The bit sets and the access are well formed.
    pub closed spec fn wf(&self) -> bool {
        &&& fbs_wf(self.matched_tables)
        &&& fbs_wf(self.matched_archetypes)
        &&& self.component_access.wf()
    }

    /// Creates a state for the terms `fetch_state` and `filter_state` over
    /// `component_access` that has seen no archetype.
    fn from_access(
        world_id: WorldId,
        fetch_state: QueryTerm,
        filter_state: QueryTerm,
        component_access: FilteredAccess,
        is_dense: bool,
    ) -> (r: Self)
        requires
            component_access.wf(),
        ensures
            r.wf(),
            r@ == fresh_state(world_id, fetch_state, filter_state, component_access@, is_dense),
            r.fetch_term() == fetch_state,
            r.filter_term() == filter_state,
    {
        let r = QueryState {
            world_id,
            archetype_generation: 0,
            matched_tables: fbs_new(),
            matched_archetypes: fbs_new(),
            component_access,
            matched_storage_ids: Vec::new(),
            is_dense,
            fetch_state,
            filter_state,
        };
        assert(r.matched_storage_ids@ =~= Seq::<usize>::empty());
        r
    }

    /// Creates a state for a query with the data term `fetch_state` and the
    /// filter term `filter_state`, in world `world_id`, before any archetype
    /// is matched.
    ///
    /// The filter registers its access in an access of its own, so that it
    /// cannot conflict with the data (filters are evaluated before any
    /// reference is made); that access is then merged into the query's. The
    /// state is dense when both terms are.
    pub fn from_states_uninitialized(world_id: WorldId, fetch_state: QueryTerm, filter_state: QueryTerm) -> (r: Self)
        requires
            fetch_state.wf(),
            filter_state.wf(),
        ensures
            r.wf(),
            r@ == fresh_state(
                world_id,
                fetch_state,
                filter_state,
                extended_view(
                    updated_view(matches_everything_view(), fetch_state),
                    updated_view(matches_everything_view(), filter_state),
                ),
                fetch_state.is_dense_spec() && filter_state.is_dense_spec(),
            ),
            r.fetch_term() == fetch_state,
            r.filter_term() == filter_state,
    {
        let mut component_access = FilteredAccess::default();
        proof {
            lemma_no_conflict_with_empty(&fetch_state, &component_access);
        }
        fetch_state.update_component_access(&mut component_access);
        let mut filter_component_access = FilteredAccess::default();
        proof {
            lemma_no_conflict_with_empty(&filter_state, &filter_component_access);
        }
        filter_state.update_component_access(&mut filter_component_access);
        proof {
            assert(component_access@.filters.len() == 1);
            assert(filter_component_access@.filters.len() == 1);
            assert(component_access.filters().len() * filter_component_access.filters().len() == 1) by (nonlinear_arith)
                requires
                    component_access.filters().len() == 1,
                    filter_component_access.filters().len() == 1,
            ;
        }
        component_access.extend(&filter_component_access);
        let is_dense = fetch_state.is_dense() && filter_state.is_dense();
        QueryState::from_access(world_id, fetch_state, filter_state, component_access, is_dense)
    }

    /// Creates a state for a query with the data term `fetch_state` and the
    /// filter term `filter_state` in world `world_id`, and matches it
    /// against `archetypes`.
    pub fn new(world_id: WorldId, fetch_state: QueryTerm, filter_state: QueryTerm, archetypes: &Archetypes) -> (r: Self)
        requires
            fetch_state.wf(),
            filter_state.wf(),
            archetypes.wf(),
        ensures
            r.wf(),
            exists|required: Seq<ComponentId>|
                enumerates(
                    required,
                    extended_view(
                        updated_view(matches_everything_view(), fetch_state),
                        updated_view(matches_everything_view(), filter_state),
                    ).required,
                ) && r@ == after_update(
                    fresh_state(
                        world_id,
                        fetch_state,
                        filter_state,
                        extended_view(
                            updated_view(matches_everything_view(), fetch_state),
                            updated_view(matches_everything_view(), filter_state),
                        ),
                        fetch_state.is_dense_spec() && filter_state.is_dense_spec(),
                    ),
                    archetypes@,
                    required,
                ),
            r.fetch_term() == fetch_state,
            r.filter_term() == filter_state,
    {
        let mut state = QueryState::from_states_uninitialized(world_id, fetch_state, filter_state);
        state.update_archetypes(world_id, archetypes);
        state
    }

    /// Creates a new state from the access built by `builder`, for the data
    /// term `fetch_state` and the filter term `filter_state` of the builder,
    /// in the builder's world, and matches it against `archetypes`. The state is
    /// dense when the builder's access is, given the components stored in
    /// tables, `table_components` (see [`QueryBuilder::is_dense`]).
    ///
    /// The data term may claim extra access out of what the builder allows
    /// (see [`QueryTerm::provide_extra_access`]); the state's access is the
    /// builder's.
    pub fn from_builder(
        builder: &QueryBuilder,
        fetch_state: QueryTerm,
        filter_state: QueryTerm,
        table_components: &ComponentIdSet,
        archetypes: &Archetypes,
    ) -> (r: Self)
        requires
            builder.wf(),
            fetch_state.wf(),
            archetypes.wf(),
        ensures
            r.wf(),
            exists|required: Seq<ComponentId>|
                enumerates(required, builder@.access.required) && r@ == after_update(
                    fresh_state(
                        builder@.world_id,
                        fetch_state,
                        filter_state,
                        builder@.access,
                        dense_for(builder@.access, fetch_state, filter_state, table_components@),
                    ),
                    archetypes@,
                    required,
                ),
            provided_term(
                fetch_state,
                r.fetch_term(),
                updated_view(matches_everything_view(), fetch_state).access,
                builder@.access.access,
            ),
            r.filter_term() == filter_state,
    {
        let mut fetch_state = fetch_state;
        let ghost fetch0 = fetch_state;
        let mut component_access = FilteredAccess::default();
        proof {
            lemma_no_conflict_with_empty(&fetch_state, &component_access);
        }
        fetch_state.update_component_access(&mut component_access);
        fetch_state.provide_extra_access(component_access.access_mut(), builder.access().access());
        let component_access = builder.access().clone();
        // For dynamic queries the dense-ness is given by the query builder.
        let is_dense = builder.is_dense(&fetch_state, &filter_state, table_components);
        let world_id = builder.world();
        let mut state = QueryState::from_access(world_id, fetch_state, filter_state, component_access, is_dense);
        proof {
            // only the kind of the data term shows in the state's view
            assert(state@ == fresh_state(world_id, fetch0, filter_state, builder@.access, is_dense));
        }
        state.update_archetypes(world_id, archetypes);
        state
    }

    /// Returns the access of the query.
    pub fn component_access(&self) -> (r: &FilteredAccess)
        requires
            self.wf(),
        ensures
            r.wf(),
            r@ == self@.access,
    {
        &self.component_access
    }

    /// Returns the ids of the matched tables, in increasing order.
    pub fn matched_tables(&self) -> (r: Vec<usize>)
        ensures
            forall|i: int, j: int| 0 <= i < j < r@.len() ==> r@[i] < r@[j],
            forall|k: usize| #[trigger] r@.contains(k) == self@.matched_tables.contains(k),
    {
        fbs_ones_vec(&self.matched_tables)
    }

    /// Returns the ids of the matched archetypes, in increasing order.
    pub fn mathced_archetypes(&self) -> (r: Vec<usize>)
        ensures
            forall|i: int, j: int| 0 <= i < j < r@.len() ==> r@[i] < r@[j],
            forall|k: usize| #[trigger] r@.contains(k) == self@.matched_archetypes.contains(k),
    {
        fbs_ones_vec(&self.matched_archetypes)
    }

    /// Returns whether this query iterates table by table.
    pub fn is_dense(&self) -> (r: bool)
        ensures
            r == self@.is_dense,
    {
        self.is_dense
    }

    /// Returns the storages to iterate, in order: tables when dense,
    /// archetypes otherwise.
    pub fn matched_storage_ids(&self) -> (r: &Vec<usize>)
        ensures
            r@ == self@.storage_ids,
    {
        &self.matched_storage_ids
    }

    /// Adds the access of this query to `component_access_set`, which must
    /// not conflict with it (the query could not run otherwise).
    pub fn init_access(&self, component_access_set: &mut FilteredAccessSet)
        requires
            self.wf(),
            old(component_access_set).wf(),
            forall|i: int|
                0 <= i < old(component_access_set).accesses().len() ==> (#[trigger] old(component_access_set).accesses()[i]).compatible(&self.access_spec()),
        ensures
            final(component_access_set).wf(),
            final(component_access_set).accesses().len() == old(component_access_set).accesses().len() + 1,
            forall|i: int|
                0 <= i < old(component_access_set).accesses().len() ==> #[trigger] final(component_access_set).accesses()[i] == old(component_access_set).accesses()[i],
            final(component_access_set).accesses().last()@ == self@.access,
    {
        component_access_set.add(self.component_access.clone());
    }

    /// Checks that the state is used with the world it was created for.
    pub fn validate_world(&self, world_id: WorldId)
        requires
            self@.world_id == world_id,
    {
    }

    /// Returns whether this query matches an entity with the components
    /// `components`.
    pub fn matches_component_set(&self, components: &ComponentIdSet) -> (r: bool)
        requires
            self.wf(),
        ensures
            r == matches_components(self@.access, components@),
    {
        let filters = self.component_access.filter_sets();
        let mut i: usize = 0;
        while i < filters.len()
            invariant
                i <= filters@.len(),
                filters@ == self.component_access.filters(),
                forall|j: int| 0 <= j < i ==> !((#[trigger] self@.access.filters[j]).0.subset_of(components@)
                    && self@.access.filters[j].1.disjoint(components@)),
            decreases filters@.len() - i,
        {
            if filters[i].with.is_subset(components) && filters[i].without.is_disjoint(components) {
                assert(self@.access.filters[i as int].0.subset_of(components@));
                return true;
            }
            i = i + 1;
        }
        false
    }

    /// Updates the state with `archetype`, when the query matches it.
    pub fn new_archetype(&mut self, archetype: &ArchetypeInfo)
        requires
            old(self).wf(),
            archetype@.id < usize::MAX,
            archetype@.table_id < usize::MAX,
        ensures
            final(self).wf(),
            final(self)@ == after_new_archetype(old(self)@, archetype@),
            final(self).fetch_term() == old(self).fetch_term(),
            final(self).filter_term() == old(self).filter_term(),
    {
        proof {
            lemma_matches_requires(self.fetch_state, archetype@.components);
            lemma_matches_requires(self.filter_state, archetype@.components);
        }
        if self.fetch_state.matches_component_set(&archetype.components)
            && self.filter_state.matches_component_set(&archetype.components)
            && self.matches_component_set(&archetype.components)
        {
            let archetype_index = archetype.id;
            if !fbs_contains(&self.matched_archetypes, archetype_index) {
                fbs_grow_and_insert(&mut self.matched_archetypes, archetype_index);
                if !self.is_dense {
                    self.matched_storage_ids.push(archetype_index);
                }
            }
            let table_index = archetype.table_id;
            if !fbs_contains(&self.matched_tables, table_index) {
                fbs_grow_and_insert(&mut self.matched_tables, table_index);
                if self.is_dense {
                    self.matched_storage_ids.push(table_index);
                }
            }
        }
    }

    /// Offers the archetypes with the ids `ids` that are not below `from` to
    /// the state, in order.
    fn visit(&mut self, archetypes: &Archetypes, ids: &Vec<usize>, from: usize)
        requires
            old(self).wf(),
            archetypes.wf(),
            forall|i: int| 0 <= i < ids@.len() ==> #[trigger] ids@[i] < archetypes@.len(),
        ensures
            final(self).wf(),
            final(self)@ == after_visits(old(self)@, archetypes@, ids@, from as nat, ids@.len()),
            final(self).fetch_term() == old(self).fetch_term(),
            final(self).filter_term() == old(self).filter_term(),
    {
        let mut i: usize = 0;
        while i < ids.len()
            invariant
                self.wf(),
                archetypes.wf(),
                i <= ids@.len(),
                forall|j: int| 0 <= j < ids@.len() ==> #[trigger] ids@[j] < archetypes@.len(),
                self@ == after_visits(old(self)@, archetypes@, ids@, from as nat, i as nat),
                self.fetch_term() == old(self).fetch_term(),
                self.filter_term() == old(self).filter_term(),
            decreases ids@.len() - i,
        {
            let id = ids[i];
            if id >= from {
                assert(ids@[i as int] < archetypes@.len());
                let archetype = &archetypes.archetypes[id];
                assert(archetypes@[id as int] == archetype@);
                assert(archetypes@[id as int].id == id);
                self.new_archetype(archetype);
            }
            i = i + 1;
        }
    }

    /// Updates the state's view of the world's archetypes: every archetype
    /// created since the last update is offered to it.
    ///
    /// With required components, only the archetypes that have the required
    /// component with the fewest archetypes are offered (an archetype without
    /// a required component cannot match).
    #[verifier::spinoff_prover]
    pub fn update_archetypes(&mut self, world_id: WorldId, archetypes: &Archetypes)
        requires
            old(self).wf(),
            archetypes.wf(),
            old(self)@.world_id == world_id,
            old(self)@.access.required == Set::<usize>::empty() ==> old(self)@.generation
                <= archetypes@.len(),
        ensures
            final(self).wf(),
            exists|required: Seq<ComponentId>|
                enumerates(required, old(self)@.access.required) && final(self)@ == after_update(
                    old(self)@,
                    archetypes@,
                    required,
                ),
            final(self).fetch_term() == old(self).fetch_term(),
            final(self).filter_term() == old(self).filter_term(),
    {
        self.validate_world(world_id);
        let required = self.component_access.required().iter();
        let len = archetypes.generation();
        if self.component_access.required().is_clear() {
            let from = self.archetype_generation;
            let mut ids: Vec<usize> = Vec::new();
            let mut k: usize = from;
            while k < len
                invariant
                    from <= k <= len,
                    len == archetypes@.len(),
                    ids@ == id_range(from as nat, k as nat),
                decreases len - k,
            {
                ids.push(k);
                k = k + 1;
                assert(ids@ =~= id_range(from as nat, k as nat));
            }
            self.visit(archetypes, &ids, from);
            self.archetype_generation = len;
            assert(final(self)@ == after_update(old(self)@, archetypes@, required@));
            return;
        }
        // skip if we are already up to date
        if self.archetype_generation == len {
            assert(final(self)@ == after_update(old(self)@, archetypes@, required@));
            return;
        }
        // select the required component with the fewest archetypes
        let mut best: Option<Vec<usize>> = None;
        let mut i: usize = 0;
        while i < required.len()
            invariant
                i <= required@.len(),
                archetypes.wf(),
                match best {
                    None => fewest_archetypes(archetypes@, required@, i as nat) is None,
                    Some(b) => fewest_archetypes(archetypes@, required@, i as nat) == Some(b@),
                },
            decreases required@.len() - i,
        {
            let candidates = archetypes.component_archetypes(required[i]);
            if candidates.len() > 0 {
                let replace = match &best {
                    None => true,
                    Some(b) => candidates.len() < b.len(),
                };
                if replace {
                    best = Some(candidates);
                }
            }
            i = i + 1;
        }
        match best {
            Some(ids) => {
                proof {
                    lemma_archetypes_with_bounded(archetypes@, required@, required@.len());
                }
                let from = self.archetype_generation;
                self.visit(archetypes, &ids, from);
            },
            None => {},
        }
        self.archetype_generation = len;
    }
}

/// Registers the access of new data and filter terms, the data term claiming
/// extra access out of `available`, and returns the access they need.
fn new_terms_access(fetch_state: &mut QueryTerm, filter_state: &QueryTerm, available: &FilteredAccess) -> (r: FilteredAccess)
    requires
        old(fetch_state).wf(),
        filter_state.wf(),
        available.wf(),
    ensures
        r.wf(),
        r@ == terms_access_view(*old(fetch_state), *filter_state, available@.access),
        final(fetch_state).wf(),
        term_requires(*final(fetch_state)) == term_requires(*old(fetch_state)),
        final(fetch_state).is_read_only_spec() == old(fetch_state).is_read_only_spec(),
        provided_term(
            *old(fetch_state),
            *final(fetch_state),
            updated_view(matches_everything_view(), *old(fetch_state)).access,
            available@.access,
        ),
{
    let ghost fetch0 = *fetch_state;
    let mut component_access = FilteredAccess::default();
    proof {
        lemma_no_conflict_with_empty(fetch_state, &component_access);
    }
    fetch_state.update_component_access(&mut component_access);
    let ghost d = component_access@;
    fetch_state.provide_extra_access(component_access.access_mut(), available.access());
    proof {
        lemma_view_ext(
            component_access,
            FilteredAccessView { access: provided_access_view(fetch0, d.access, available@.access), ..d },
        );
    }
    let mut filter_component_access = FilteredAccess::default();
    proof {
        lemma_no_conflict_with_empty(filter_state, &filter_component_access);
    }
    filter_state.update_component_access(&mut filter_component_access);
    proof {
        assert(component_access@.filters.len() == 1);
        assert(filter_component_access@.filters.len() == 1);
    }
    component_access.extend(&filter_component_access);
    component_access
}

impl QueryState {
    /// Creates a state with the same matched tables and archetypes as self,
    /// for the new data term `new_fetch` and filter term `new_filter`. The
    /// new state keeps the access of self, without its writes when self's
    /// data is read-only (self was transmuted from a mutable query to a
    /// read-only one), and the density of self.
    ///
    /// The new terms may only access what that access allows; the data term
    /// may claim extra access out of it.
    pub fn transmute_filtered(&self, world_id: WorldId, new_fetch: QueryTerm, new_filter: QueryTerm) -> (r: QueryState)
        requires
            self.wf(),
            self@.world_id == world_id,
            new_fetch.wf(),
            new_filter.wf(),
            view_is_subset(
                terms_access_view(new_fetch, new_filter, transmuted_view(self@.access, self@.read_only).access),
                transmuted_view(self@.access, self@.read_only),
            ),
        ensures
            r.wf(),
            r@ == retermed_state(self@, new_fetch, new_filter, transmuted_view(self@.access, self@.read_only)),
            provided_term(
                new_fetch,
                r.fetch_term(),
                updated_view(matches_everything_view(), new_fetch).access,
                transmuted_view(self@.access, self@.read_only).access,
            ),
            r.filter_term() == new_filter,
    {
        self.validate_world(world_id);
        let mut self_access = self.component_access.clone();
        if self.fetch_state.is_read_only() {
            // The current state was transmuted from a mutable query to a
            // read-only one: ignore any write access in the current state.
            clear_access_writes(&mut self_access);
        }
        let mut fetch_state = new_fetch;
        let component_access = new_terms_access(&mut fetch_state, &new_filter, &self_access);
        proof {
            assert(component_access@ == terms_access_view(new_fetch, new_filter, self_access@.access));
        }
        let r = QueryState {
            world_id: self.world_id,
            archetype_generation: self.archetype_generation,
            matched_tables: fbs_clone(&self.matched_tables),
            matched_archetypes: fbs_clone(&self.matched_archetypes),
            component_access: self_access,
            matched_storage_ids: copy_ids(&self.matched_storage_ids),
            is_dense: self.is_dense,
            fetch_state,
            filter_state: new_filter,
        };
        r
    }

    /// Creates a state with the same matched tables and archetypes as self,
    /// for the new data term `new_fetch` and no filter.
    pub fn transmute(&self, world_id: WorldId, new_fetch: QueryTerm) -> (r: QueryState)
        requires
            self.wf(),
            self@.world_id == world_id,
            new_fetch.wf(),
            view_is_subset(
                terms_access_view(new_fetch, QueryTerm::NoAccess, transmuted_view(self@.access, self@.read_only).access),
                transmuted_view(self@.access, self@.read_only),
            ),
        ensures
            r.wf(),
            r@ == retermed_state(self@, new_fetch, QueryTerm::NoAccess, transmuted_view(self@.access, self@.read_only)),
            provided_term(
                new_fetch,
                r.fetch_term(),
                updated_view(matches_everything_view(), new_fetch).access,
                transmuted_view(self@.access, self@.read_only).access,
            ),
            r.filter_term() == QueryTerm::NoAccess,
    {
        self.transmute_filtered(world_id, new_fetch, QueryTerm::NoAccess)
    }

    /// Combines self and `other` into a state for the new data term
    /// `new_fetch` and filter term `new_filter`: it matches the archetypes
    /// and tables that both match, and has the access of both (without the
    /// writes of a state whose data is read-only). It is dense if both are.
    ///
    /// The new terms may only access what the joined access allows; the data
    /// term may claim extra access out of it.
    pub fn join_filtered(
        &self,
        world_id: WorldId,
        other: &QueryState,
        new_fetch: QueryTerm,
        new_filter: QueryTerm,
    ) -> (r: QueryState)
        requires
            self.wf(),
            other.wf(),
            self@.world_id == other@.world_id,
            self@.world_id == world_id,
            new_fetch.wf(),
            new_filter.wf(),
            self@.access.filters.len() * other@.access.filters.len() <= usize::MAX,
            view_is_subset(
                terms_access_view(
                    new_fetch,
                    new_filter,
                    joined_view(self@.access, other@.access, self@.read_only, other@.read_only).access,
                ),
                joined_view(self@.access, other@.access, self@.read_only, other@.read_only),
            ),
        ensures
            r.wf(),
            r@.world_id == self@.world_id,
            r@.generation == self@.generation,
            r@.matched_tables == self@.matched_tables.intersect(other@.matched_tables),
            r@.matched_archetypes == self@.matched_archetypes.intersect(other@.matched_archetypes),
            r@.is_dense == (self@.is_dense && other@.is_dense),
            r@.access == joined_view(self@.access, other@.access, self@.read_only, other@.read_only),
            r@.term_components == term_requires(new_fetch).union(term_requires(new_filter)),
            r@.read_only == new_fetch.is_read_only_spec(),
            provided_term(
                new_fetch,
                r.fetch_term(),
                updated_view(matches_everything_view(), new_fetch).access,
                joined_view(self@.access, other@.access, self@.read_only, other@.read_only).access,
            ),
            r.filter_term() == new_filter,
            lists_increasing(
                r@.storage_ids,
                if r@.is_dense {
                    r@.matched_tables
                } else {
                    r@.matched_archetypes
                },
            ),
    {
        self.validate_world(world_id);
        let self_read_only = self.fetch_state.is_read_only();
        let other_read_only = other.fetch_state.is_read_only();
        let mut joined_component_access = self.component_access.clone();
        joined_component_access.extend(&other.component_access);
        let ghost j = joined_component_access@;
        let self_writes = self.component_access.access().has_any_write();
        let other_writes = other.component_access.access().has_any_write();
        proof {
            assert(self_writes == view_has_any_write(self@.access.access)) by {
                if self_writes {
                    let k = choose|k: usize| #[trigger] self.component_access.access_spec().writes(k);
                    assert(self@.access.access.writes.contains(k));
                }
            }
            assert(other_writes == view_has_any_write(other@.access.access)) by {
                if other_writes {
                    let k = choose|k: usize| #[trigger] other.component_access.access_spec().writes(k);
                    assert(other@.access.access.writes.contains(k));
                }
            }
        }
        if self_read_only && self_writes || other_read_only && other_writes {
            // One of the input states was transmuted from a mutable query to
            // a read-only one: ignore any write access in that state.
            // The simplest way to do this is to clear *all* writes and then
            // add back in any writes that are valid.
            clear_access_writes(&mut joined_component_access);
            if !self_read_only {
                extend_access_with(&mut joined_component_access, self.component_access.access());
            }
            if !other_read_only {
                extend_access_with(&mut joined_component_access, other.component_access.access());
            }
        }
        let mut fetch_state = new_fetch;
        let component_access = new_terms_access(&mut fetch_state, &new_filter, &joined_component_access);
        // the join is dense if both the queries were dense.
        let is_dense = self.is_dense && other.is_dense;
        // take the intersection of the matched ids
        let mut matched_tables = fbs_clone(&self.matched_tables);
        let mut matched_archetypes = fbs_clone(&self.matched_archetypes);
        fbs_intersect_with(&mut matched_tables, &other.matched_tables);
        fbs_intersect_with(&mut matched_archetypes, &other.matched_archetypes);
        let matched_storage_ids = if is_dense {
            fbs_ones_vec(&matched_tables)
        } else {
            fbs_ones_vec(&matched_archetypes)
        };
        QueryState {
            world_id: self.world_id,
            archetype_generation: self.archetype_generation,
            matched_tables,
            matched_archetypes,
            component_access: joined_component_access,
            matched_storage_ids,
            is_dense,
            fetch_state,
            filter_state: new_filter,
        }
    }

    /// Combines self and `other` into a state for the new data term
    /// `new_fetch` and no filter.
    pub fn join(&self, world_id: WorldId, other: &QueryState, new_fetch: QueryTerm) -> (r: QueryState)
        requires
            self.wf(),
            other.wf(),
            self@.world_id == other@.world_id,
            self@.world_id == world_id,
            new_fetch.wf(),
            self@.access.filters.len() * other@.access.filters.len() <= usize::MAX,
            view_is_subset(
                terms_access_view(
                    new_fetch,
                    QueryTerm::NoAccess,
                    joined_view(self@.access, other@.access, self@.read_only, other@.read_only).access,
                ),
                joined_view(self@.access, other@.access, self@.read_only, other@.read_only),
            ),
        ensures
            r.wf(),
            r@.world_id == self@.world_id,
            r@.generation == self@.generation,
            r@.matched_tables == self@.matched_tables.intersect(other@.matched_tables),
            r@.matched_archetypes == self@.matched_archetypes.intersect(other@.matched_archetypes),
            r@.is_dense == (self@.is_dense && other@.is_dense),
            r@.access == joined_view(self@.access, other@.access, self@.read_only, other@.read_only),
            r@.term_components == term_requires(new_fetch),
            r@.read_only == new_fetch.is_read_only_spec(),
            provided_term(
                new_fetch,
                r.fetch_term(),
                updated_view(matches_everything_view(), new_fetch).access,
                joined_view(self@.access, other@.access, self@.read_only, other@.read_only).access,
            ),
            r.filter_term() == QueryTerm::NoAccess,
            lists_increasing(
                r@.storage_ids,
                if r@.is_dense {
                    r@.matched_tables
                } else {
                    r@.matched_archetypes
                },
            ),
    {
        let r = self.join_filtered(world_id, other, new_fetch, QueryTerm::NoAccess);
        assert(term_requires(new_fetch).union(term_requires(QueryTerm::NoAccess)) =~= term_requires(new_fetch));
        r
    }
}

/// Offering archetypes to a state keeps its world, generation, access and
/// density, and it matches afterwards exactly the archetypes it matched
/// before and those offered to it whose components its filters accept.
pub proof fn lemma_visits_match(
    v: QueryStateView,
    archs: Seq<ArchetypeView>,
    ids: Seq<usize>,
    from: nat,
    n: nat,
)
    requires
        archetypes_wf(archs),
        n <= ids.len(),
        forall|i: int| 0 <= i < ids.len() ==> #[trigger] ids[i] < archs.len(),
    ensures
        ({
            let r = after_visits(v, archs, ids, from, n);
            &&& r.world_id == v.world_id
            &&& r.generation == v.generation
            &&& r.access == v.access
            &&& r.is_dense == v.is_dense
            &&& r.term_components == v.term_components
            &&& r.read_only == v.read_only
            &&& forall|x: usize| #[trigger] r.matched_archetypes.contains(x) <==> (v.matched_archetypes.contains(x)
                || exists|k: int| 0 <= k < n && #[trigger] ids[k] == x && x >= from && state_matches(v, archs[x as int].components))
        }),
    decreases n,
{
    if n > 0 {
        lemma_visits_match(v, archs, ids, from, (n - 1) as nat);
        let prev = after_visits(v, archs, ids, from, (n - 1) as nat);
        let r = after_visits(v, archs, ids, from, n);
        let last = ids[n - 1];
        assert(archs[last as int].id == last);
        assert forall|x: usize| #[trigger] r.matched_archetypes.contains(x) <==> (v.matched_archetypes.contains(x)
            || exists|k: int| 0 <= k < n && #[trigger] ids[k] == x && x >= from && state_matches(v, archs[x as int].components)) by {
            if exists|k: int| 0 <= k < n - 1 && #[trigger] ids[k] == x && x >= from && state_matches(v, archs[x as int].components) {
                let k = choose|k: int| 0 <= k < n - 1 && #[trigger] ids[k] == x && x >= from && state_matches(v, archs[x as int].components);
                assert(0 <= k < n && ids[k] == x);
            }
            if exists|k: int| 0 <= k < n && #[trigger] ids[k] == x && x >= from && state_matches(v, archs[x as int].components) {
                let k = choose|k: int| 0 <= k < n && #[trigger] ids[k] == x && x >= from && state_matches(v, archs[x as int].components);
                if k < n - 1 {
                    assert(prev.matched_archetypes.contains(x));
                }
            }
        }
    }
}

/// A state over an access with no required component, updated with the
/// world's archetypes, matches exactly the archetypes it matched before and
/// the new archetypes whose components its filters accept; updating it
/// again with the same archetypes changes nothing.
pub proof fn lemma_update_matches(v: QueryStateView, archs: Seq<ArchetypeView>, required: Seq<ComponentId>)
    requires
        archetypes_wf(archs),
        v.access.required == Set::<usize>::empty(),
        v.generation <= archs.len(),
    ensures
        ({
            let r = after_update(v, archs, required);
            &&& r.generation == archs.len()
            &&& r.access == v.access
            &&& forall|x: usize| #[trigger] r.matched_archetypes.contains(x) <==> (v.matched_archetypes.contains(x)
                || (v.generation <= x < archs.len() && state_matches(v, archs[x as int].components)))
            &&& after_update(r, archs, required) == r
        }),
{
    let ids = id_range(v.generation, archs.len());
    lemma_visits_match(v, archs, ids, v.generation, ids.len());
    let r = after_update(v, archs, required);
    assert forall|x: usize| #[trigger] r.matched_archetypes.contains(x) <==> (v.matched_archetypes.contains(x)
        || (v.generation <= x < archs.len() && state_matches(v, archs[x as int].components))) by {
        if v.generation <= x < archs.len() {
            assert(ids[x - v.generation] == x);
        }
    }
    let ids2 = id_range(archs.len(), archs.len());
    assert(ids2.len() == 0);
    assert(after_visits(r, archs, ids2, r.generation, ids2.len()) == r);
    assert(after_update(r, archs, required) =~= r);
}

/// The ids listed for a component are ids of archetypes.
proof fn lemma_archetypes_with_bounded(archs: Seq<ArchetypeView>, required: Seq<ComponentId>, n: nat)
    ensures
        forall|c: usize, m: nat, i: int|
            0 <= i < archetypes_with(archs, c, m).len() ==> #[trigger] archetypes_with(archs, c, m)[i] < m
                && m <= archs.len(),
        fewest_archetypes(archs, required, n) matches Some(ids) ==> forall|i: int|
            0 <= i < ids.len() ==> #[trigger] ids[i] < archs.len(),
    decreases n,
{
    assert forall|c: usize, m: nat, i: int|
        0 <= i < archetypes_with(archs, c, m).len() implies #[trigger] archetypes_with(archs, c, m)[i] < m
            && m <= archs.len() by {
        lemma_archetypes_with_ids(archs, c, m);
    }
    if n > 0 && n <= required.len() {
        lemma_archetypes_with_bounded(archs, required, (n - 1) as nat);
    }
}

/// The ids listed for a component among the first `m` archetypes are below `m`.
proof fn lemma_archetypes_with_ids(archs: Seq<ArchetypeView>, c: usize, m: nat)
    ensures
        archetypes_with(archs, c, m).len() > 0 ==> m <= archs.len(),
        forall|i: int| 0 <= i < archetypes_with(archs, c, m).len() ==> #[trigger] archetypes_with(archs, c, m)[i] < m,
    decreases m,
{
    if m > 0 && m <= archs.len() {
        lemma_archetypes_with_ids(archs, c, (m - 1) as nat);
        let prev = archetypes_with(archs, c, (m - 1) as nat);
        let cur = archetypes_with(archs, c, m);
        assert forall|i: int| 0 <= i < cur.len() implies #[trigger] cur[i] < m by {
            if i < prev.len() {
                assert(cur[i] == prev[i]);
            }
        }
    }
}


/// An entity matched by the conjunction of two filtered accesses is matched
/// by each of them.
pub proof fn lemma_extended_matches(a: FilteredAccessView, b: FilteredAccessView, components: Set<usize>)
    requires
        matches_components(extended_view(a, b), components),
    ensures
        matches_components(a, components),
        matches_components(b, components),
{
    let e = extended_view(a, b);
    let x = choose|x: int|
        0 <= x < e.filters.len() && (#[trigger] e.filters[x]).0.subset_of(components)
            && e.filters[x].1.disjoint(components);
    let n = a.filters.len() as int;
    let m = b.filters.len() as int;
    let i = x / m;
    let j = x % m;
    assert(m > 0) by (nonlinear_arith)
        requires
            0 <= x < n * m,
            n >= 0,
    ;
    vstd::arithmetic::div_mod::lemma_fundamental_div_mod(x, m);
    vstd::arithmetic::div_mod::lemma_mod_bound(x, m);
    assert(0 <= i < n) by (nonlinear_arith)
        requires
            x == m * i + j,
            0 <= j < m,
            0 <= x < n * m,
    ;
    assert(e.filters[x].0 == a.filters[i].0.union(b.filters[j].0));
    assert(e.filters[x].1 == a.filters[i].1.union(b.filters[j].1));
    assert(a.filters[i].0.subset_of(components) && a.filters[i].1.disjoint(components));
    assert(b.filters[j].0.subset_of(components) && b.filters[j].1.disjoint(components));
}

/// For a state made from its terms, the kind checks of the terms add nothing
/// to the access check: an entity that the access accepts holds every
/// component the terms require.
pub proof fn lemma_term_checks_implied(fetch: QueryTerm, filter: QueryTerm, components: Set<usize>)
    requires
        matches_components(
            extended_view(
                updated_view(matches_everything_view(), fetch),
                updated_view(matches_everything_view(), filter),
            ),
            components,
        ),
    ensures
        term_requires(fetch).union(term_requires(filter)).subset_of(components),
{
    let a = updated_view(matches_everything_view(), fetch);
    let b = updated_view(matches_everything_view(), filter);
    lemma_extended_matches(a, b, components);
    lemma_access_matches_term(matches_everything_view(), fetch, components);
    lemma_access_matches_term(matches_everything_view(), filter, components);
    lemma_matches_requires(fetch, components);
    lemma_matches_requires(filter, components);
}

/// The archetypes listed for component `c` among the first `m` are exactly
/// those that have `c`.
proof fn lemma_archetypes_with_members(archs: Seq<ArchetypeView>, c: usize, m: nat)
    requires
        m <= archs.len(),
        archs.len() < usize::MAX,
    ensures
        forall|k: int|
            0 <= k < archetypes_with(archs, c, m).len() ==> #[trigger] archetypes_with(archs, c, m)[k] < m
                && archs[archetypes_with(archs, c, m)[k] as int].components.contains(c),
        forall|x: usize|
            x < m && #[trigger] archs[x as int].components.contains(c) ==> exists|k: int|
                0 <= k < archetypes_with(archs, c, m).len() && archetypes_with(archs, c, m)[k] == x,
    decreases m,
{
    if m > 0 {
        lemma_archetypes_with_members(archs, c, (m - 1) as nat);
        let prev = archetypes_with(archs, c, (m - 1) as nat);
        let cur = archetypes_with(archs, c, m);
        let last = archs[m - 1].components.contains(c);
        if last {
            assert(cur == prev.push((m - 1) as usize));
        } else {
            assert(cur == prev);
        }
        assert forall|k: int| 0 <= k < cur.len() implies #[trigger] cur[k] < m && archs[cur[k] as int].components.contains(c) by {
            if k < prev.len() {
                assert(cur[k] == prev[k]);
            }
        }
        assert forall|x: usize|
            x < m && #[trigger] archs[x as int].components.contains(c) implies exists|k: int|
                0 <= k < cur.len() && cur[k] == x by {
            if x < m - 1 {
                let k = choose|k: int| 0 <= k < prev.len() && prev[k] == x;
                assert(cur[k] == x);
            } else {
                assert(cur[prev.len() as int] == x);
            }
        }
    }
}

/// The archetypes chosen among the required components are those listed for
/// one of them; when none is chosen, none of them has any archetype.
proof fn lemma_fewest_is_listed(archs: Seq<ArchetypeView>, required: Seq<ComponentId>, n: nat)
    requires
        n <= required.len(),
    ensures
        fewest_archetypes(archs, required, n) matches Some(ids) ==> exists|i: int|
            0 <= i < n && ids == #[trigger] archetypes_with(archs, required[i].0, archs.len()),
        fewest_archetypes(archs, required, n) is None ==> forall|i: int|
            0 <= i < n ==> (#[trigger] archetypes_with(archs, required[i].0, archs.len())).len() == 0,
    decreases n,
{
    if n > 0 {
        lemma_fewest_is_listed(archs, required, (n - 1) as nat);
        let candidates = archetypes_with(archs, required[n - 1].0, archs.len());
        if fewest_archetypes(archs, required, n) is None {
            assert forall|i: int| 0 <= i < n implies (#[trigger] archetypes_with(archs, required[i].0, archs.len())).len()
                == 0 by {
                if i < n - 1 {
                    assert(fewest_archetypes(archs, required, (n - 1) as nat) is None);
                }
            }
        }
        match fewest_archetypes(archs, required, n) {
            Some(ids) => {
                if ids == candidates {
                    assert(ids == archetypes_with(archs, required[n - 1].0, archs.len()));
                } else {
                    let i = choose|i: int|
                        0 <= i < n - 1 && fewest_archetypes(archs, required, (n - 1) as nat) == Some(
                            #[trigger] archetypes_with(archs, required[i].0, archs.len()),
                        );
                    assert(ids == archetypes_with(archs, required[i].0, archs.len()));
                }
            },
            None => {},
        }
    }
}

/// A state whose required components are in each of its filter sets,
/// updated with the world's archetypes, matches exactly the archetypes it
/// matched before and the new archetypes it accepts, although only the
/// archetypes that have one of the required components were offered to it.
pub proof fn lemma_update_required_matches(v: QueryStateView, archs: Seq<ArchetypeView>, required: Seq<ComponentId>)
    requires
        archetypes_wf(archs),
        enumerates(required, v.access.required),
        v.access.required != Set::<usize>::empty(),
        v.generation <= archs.len(),
        forall|i: int|
            0 <= i < v.access.filters.len() ==> v.access.required.subset_of(#[trigger] v.access.filters[i].0),
    ensures
        ({
            let r = after_update(v, archs, required);
            &&& r.generation == archs.len()
            &&& r.access == v.access
            &&& forall|x: usize| #[trigger] r.matched_archetypes.contains(x) <==> (v.matched_archetypes.contains(x)
                || (v.generation <= x < archs.len() && state_matches(v, archs[x as int].components)))
        }),
{
    let r = after_update(v, archs, required);
    // an accepted archetype has every required component
    assert forall|x: usize, i: int|
        0 <= i < required.len() && #[trigger] state_matches(v, archs[x as int].components) implies archs[x as int].components.contains(
        #[trigger] required[i].0) by {
        let f = choose|f: int|
            0 <= f < v.access.filters.len() && (#[trigger] v.access.filters[f]).0.subset_of(archs[x as int].components)
                && v.access.filters[f].1.disjoint(archs[x as int].components);
        assert(v.access.required.contains(required[i].0));
        assert(v.access.filters[f].0.contains(required[i].0));
    }
    assert(exists|k: usize| v.access.required.contains(k)) by {
        if !(exists|k: usize| v.access.required.contains(k)) {
            assert(v.access.required =~= Set::<usize>::empty());
        }
    }
    let k0 = choose|k: usize| v.access.required.contains(k);
    let i0 = choose|i: int| 0 <= i < required.len() && required[i].0 == k0;
    if v.generation == archs.len() {
    } else {
        lemma_fewest_is_listed(archs, required, required.len());
        lemma_archetypes_with_bounded(archs, required, required.len());
        match fewest_archetypes(archs, required, required.len()) {
            None => {
                assert forall|x: usize| #[trigger] r.matched_archetypes.contains(x) <==> (v.matched_archetypes.contains(x)
                    || (v.generation <= x < archs.len() && state_matches(v, archs[x as int].components))) by {
                    if v.generation <= x < archs.len() && state_matches(v, archs[x as int].components) {
                        let c = required[i0].0;
                        assert(archs[x as int].components.contains(c));
                        lemma_archetypes_with_members(archs, c, archs.len());
                        assert(archetypes_with(archs, required[i0].0, archs.len()).len() == 0);
                    }
                }
            },
            Some(ids) => {
                let i = choose|i: int|
                    0 <= i < required.len() && ids == #[trigger] archetypes_with(archs, required[i].0, archs.len());
                let c = required[i].0;
                lemma_archetypes_with_members(archs, c, archs.len());
                lemma_visits_match(v, archs, ids, v.generation, ids.len());
                assert forall|x: usize| #[trigger] r.matched_archetypes.contains(x) <==> (v.matched_archetypes.contains(x)
                    || (v.generation <= x < archs.len() && state_matches(v, archs[x as int].components))) by {
                    if exists|k: int| 0 <= k < ids.len() && #[trigger] ids[k] == x && x >= v.generation && state_matches(
                        v,
                        archs[x as int].components,
                    ) {
                        let k = choose|k: int| 0 <= k < ids.len() && #[trigger] ids[k] == x && x >= v.generation
                            && state_matches(v, archs[x as int].components);
                        assert(ids[k] < archs.len());
                    }
                    if v.generation <= x < archs.len() && state_matches(v, archs[x as int].components) {
                        assert(archs[x as int].components.contains(c));
                        let k = choose|k: int| 0 <= k < ids.len() && ids[k] == x;
                        assert(ids[k] == x && x >= v.generation);
                    }
                }
            },
        }
    }
}

/// In the access of a state made from its terms, every required component is
/// in each filter set, as [`lemma_update_required_matches`] needs.
pub proof fn lemma_terms_required_in_filters(fetch: QueryTerm, filter: QueryTerm)
    ensures
        ({
            let a = extended_view(
                updated_view(matches_everything_view(), fetch),
                updated_view(matches_everything_view(), filter),
            );
            forall|i: int| 0 <= i < a.filters.len() ==> a.required.subset_of(#[trigger] a.filters[i].0)
        }),
{
    let d = updated_view(matches_everything_view(), fetch);
    let f = updated_view(matches_everything_view(), filter);
    let a = extended_view(d, f);
    assert(d.filters.len() == 1 && f.filters.len() == 1);
    assert(d.required.subset_of(d.filters[0].0));
    assert(f.required.subset_of(f.filters[0].0));
    assert forall|i: int| 0 <= i < a.filters.len() implies a.required.subset_of(#[trigger] a.filters[i].0) by {
        assert(a.filters.len() == 1) by (nonlinear_arith)
            requires
                a.filters.len() == d.filters.len() * f.filters.len(),
                d.filters.len() == 1,
                f.filters.len() == 1,
        ;
        assert(i == 0);
        assert(0int / 1int == 0 && 0int % 1int == 0);
        assert(a.filters[0].0 == d.filters[0].0.union(f.filters[0].0));
    }
}

} // verus!
