//! Building the access of a query at run time, term by term.
use crate::access::{
    access_extended_view, extended_view, filter_product, matches_everything_view,
    or_appended_view, read_added_view, with_added_view, without_added_view, write_added_view,
    FilteredAccess, FilteredAccessView,
};
use crate::component_id_set::{enumerates, ComponentIdSet};
use crate::query_state::{after_update, fresh_state, Archetypes, QueryState, WorldId};
use crate::component::ComponentId;
use crate::query_term::{
    conflicts_view, lemma_conflicts_view, lemma_no_conflict_with_empty, updated_view, QueryTerm,
    StorageType,
};
use vstd::prelude::*;

verus! {

/// The abstract state of a [`QueryBuilder`].
pub ghost struct QueryBuilderView {
    /// The access of the query built so far.
    pub access: FilteredAccessView,
    /// Whether the terms added are alternatives (OR) rather than conjuncts.
    pub or: bool,
    /// Whether no alternative has been added yet in OR mode.
    pub first: bool,
    /// The world the query is built for.
    pub world_id: WorldId,
}

/// Builder of the [`FilteredAccess`] of a query at run time.
///
/// Terms are added one by one; they are joined by AND, except inside an
/// [`or`](QueryBuilder::or) group, where they become alternatives.
pub struct QueryBuilder {
    access: FilteredAccess,
    world_id: WorldId,
    or: bool,
    first: bool,
}

impl View for QueryBuilder {
    type V = QueryBuilderView;

    closed spec fn view(&self) -> QueryBuilderView {
        QueryBuilderView { access: self.access@, or: self.or, first: self.first, world_id: self.world_id }
    }
}

/// The access of a `With` filter on component `id`, with no data access.
pub open spec fn with_filter_view(id: usize) -> FilteredAccessView {
    with_added_view(matches_everything_view(), id)
}

/// The access of a `Without` filter on component `id`, with no data access.
pub open spec fn without_filter_view(id: usize) -> FilteredAccessView {
    without_added_view(matches_everything_view(), id)
}

/// The builder of a query with no data and no filter, in world `world_id`.
pub open spec fn empty_builder_view(world_id: WorldId) -> QueryBuilderView {
    QueryBuilderView { access: matches_everything_view(), or: false, first: false, world_id }
}

/// The builder handed to the terms of an OR group, in world `world_id`.
pub open spec fn or_builder_view(world_id: WorldId) -> QueryBuilderView {
    QueryBuilderView { access: matches_everything_view(), or: true, first: true, world_id }
}

/// The builder after the access `a` has been added as a term: conjoined
/// outside OR mode; inside it, the first term replaces the empty filter (its
/// required components dropped) and later terms are appended as
/// alternatives.
pub open spec fn term_added(b: QueryBuilderView, a: FilteredAccessView) -> QueryBuilderView {
    if b.or {
        if b.first {
            QueryBuilderView {
                access: extended_view(b.access, FilteredAccessView { required: Set::empty(), ..a }),
                first: false,
                ..b
            }
        } else {
            QueryBuilderView { access: or_appended_view(b.access, a), ..b }
        }
    } else {
        QueryBuilderView { access: extended_view(b.access, a), ..b }
    }
}

/// Whether adding a term with `n` filter sets to `b` stays within the
/// machine's limit on the number of filter sets.
pub open spec fn term_fits(b: QueryBuilderView, n: nat) -> bool {
    (b.or && !b.first) || b.access.filters.len() * n <= usize::MAX
}

/// Whether a query built with the access `a`, the data term `fetch` and the
/// filter term `filter` can be iterated table by table, when the components
/// stored in tables are `tables`: both terms allow it, and every component
/// of a `With` or `Without` filter is stored in a table (so that the
/// filters accept every archetype of a table alike).
pub open spec fn dense_for(a: FilteredAccessView, fetch: QueryTerm, filter: QueryTerm, tables: Set<usize>) -> bool {
    &&& fetch.is_dense_spec()
    &&& filter.is_dense_spec()
    &&& forall|i: int|
        0 <= i < a.filters.len() ==> (#[trigger] a.filters[i]).0.subset_of(tables) && a.filters[i].1.subset_of(
            tables,
        )
}

impl QueryBuilder {
    /// The access of the builder is well formed.
    pub closed spec fn wf(&self) -> bool {
        self.access.wf()
    }

    /// Creates a new builder, for the world `world_id`, with the accesses
    /// required by the query's data term `fetch_state` and by its filter term
    /// `filter_state`. The terms added later are conjoined.
    pub fn new(world_id: WorldId, fetch_state: &QueryTerm, filter_state: &QueryTerm) -> (r: Self)
        requires
            fetch_state.wf(),
            filter_state.wf(),
        ensures
            r.wf(),
            r@ == (QueryBuilderView {
                access: extended_view(
                    updated_view(matches_everything_view(), *fetch_state),
                    updated_view(matches_everything_view(), *filter_state),
                ),
                or: false,
                first: false,
                world_id,
            }),
    {
        let mut access = FilteredAccess::default();
        proof {
            lemma_no_conflict_with_empty(fetch_state, &access);
        }
        fetch_state.update_component_access(&mut access);
        // Use a temporary empty access for the filter, so that it cannot
        // conflict with the data's access (filters are evaluated before any
        // reference is made).
        let mut filter_access = FilteredAccess::default();
        proof {
            lemma_no_conflict_with_empty(filter_state, &filter_access);
        }
        filter_state.update_component_access(&mut filter_access);
        proof {
            assert(access@.filters.len() == 1);
            assert(filter_access@.filters.len() == 1);
        }
        // Merge the filter access with the main access, so that it is
        // considered in a global cross-query context.
        access.extend(&filter_access);
        QueryBuilder { access, world_id, or: false, first: false }
    }

    /// The access of `term` registered alone.
    fn term_access(term: &QueryTerm) -> (r: FilteredAccess)
        requires
            term.wf(),
        ensures
            r.wf(),
            r@ == updated_view(matches_everything_view(), *term),
            r@.filters.len() == 1,
    {
        let mut access = FilteredAccess::default();
        proof {
            lemma_no_conflict_with_empty(term, &access);
        }
        term.update_component_access(&mut access);
        access
    }

    /// A builder for a query with no data and no filter in world `world_id`,
    /// in OR mode or not.
    fn empty(world_id: WorldId, or: bool) -> (r: Self)
        ensures
            r.wf(),
            r@ == (QueryBuilderView { access: matches_everything_view(), or, first: or, world_id }),
    {
        let mut r = QueryBuilder::new(world_id, &QueryTerm::NoAccess, &QueryTerm::NoAccess);
        proof {
            let m = matches_everything_view();
            let p = extended_view(m, m).filters;
            assert(m.filters.len() == 1);
            assert(0int / 1int == 0 && 0int % 1int == 0);
            assert(p.len() == 1) by {
                let n = m.filters.len();
                assert(n * n == 1) by (nonlinear_arith)
                    requires
                        n == 1,
                ;
            }
            assert(p[0].0 =~= Set::<usize>::empty());
            assert(p[0].1 =~= Set::<usize>::empty());
            assert(p =~= m.filters);
            assert(extended_view(m, m).access.reads =~= m.access.reads);
            assert(extended_view(m, m).access.writes =~= m.access.writes);
            assert(extended_view(m, m).access.archetypal =~= m.access.archetypal);
            assert(extended_view(m, m).required =~= m.required);
        }
        r.or = or;
        r.first = or;
        r
    }

    /// Adds access to self's underlying [`FilteredAccess`] respecting
    /// [`Self::or`] and [`Self::and`].
    pub fn extend_access(&mut self, access: FilteredAccess)
        requires
            old(self).wf(),
            access.wf(),
            term_fits(old(self)@, access@.filters.len()),
        ensures
            final(self).wf(),
            final(self)@ == term_added(old(self)@, access@),
    {
        let mut access = access;
        if self.or {
            if self.first {
                access.clear_required();
                self.access.extend(&access);
                self.first = false;
            } else {
                self.access.append_or(&access);
            }
        } else {
            self.access.extend(&access);
        }
    }

    /// Adds the accesses required by the query data `term` to self.
    pub fn data(&mut self, term: &QueryTerm) -> (r: &mut Self)
        requires
            old(self).wf(),
            term.wf(),
        ensures
            r.wf(),
            r@ == term_added(old(self)@, updated_view(matches_everything_view(), *term)),
            *final(self) == *final(r),
    {
        let access = QueryBuilder::term_access(term);
        proof {
            self.access.lemma_filters_len_bound();
        }
        self.extend_access(access);
        self
    }

    /// Adds the filter `term` to self.
    pub fn filter(&mut self, term: &QueryTerm) -> (r: &mut Self)
        requires
            old(self).wf(),
            term.wf(),
        ensures
            r.wf(),
            r@ == term_added(old(self)@, updated_view(matches_everything_view(), *term)),
            *final(self) == *final(r),
    {
        let access = QueryBuilder::term_access(term);
        proof {
            self.access.lemma_filters_len_bound();
        }
        self.extend_access(access);
        self
    }

    /// Adds a `With` filter on component `id` to the [`FilteredAccess`] of self.
    pub fn with(&mut self, id: ComponentId) -> (r: &mut Self)
        requires
            old(self).wf(),
            id.0 < usize::MAX,
        ensures
            r.wf(),
            r@ == term_added(old(self)@, with_filter_view(id.0)),
            *final(self) == *final(r),
    {
        self.filter(&QueryTerm::With(id, StorageType::Table))
    }

    /// Adds a `With` filter to the [`FilteredAccess`] of self from a runtime
    /// [`ComponentId`].
    pub fn with_id(&mut self, id: ComponentId) -> (r: &mut Self)
        requires
            old(self).wf(),
            id.0 < usize::MAX,
        ensures
            r.wf(),
            r@ == term_added(old(self)@, with_filter_view(id.0)),
            *final(self) == *final(r),
    {
        let mut access = FilteredAccess::default();
        access.and_with(id);
        proof {
            self.access.lemma_filters_len_bound();
            assert(access@.filters.len() == 1);
            assert(self@.access.filters.len() * 1 <= usize::MAX);
        }
        self.extend_access(access);
        self
    }

    /// Adds a `Without` filter on component `id` to the [`FilteredAccess`] of
    /// self.
    pub fn without(&mut self, id: ComponentId) -> (r: &mut Self)
        requires
            old(self).wf(),
            id.0 < usize::MAX,
        ensures
            r.wf(),
            r@ == term_added(old(self)@, without_filter_view(id.0)),
            *final(self) == *final(r),
    {
        let mut access = FilteredAccess::default();
        access.and_without(id);
        proof {
            self.access.lemma_filters_len_bound();
            assert(access@.filters.len() == 1);
            assert(self@.access.filters.len() * 1 <= usize::MAX);
        }
        self.extend_access(access);
        self
    }

    /// Adds a `Without` filter to the [`FilteredAccess`] of self from a
    /// runtime [`ComponentId`].
    pub fn without_id(&mut self, id: ComponentId) -> (r: &mut Self)
        requires
            old(self).wf(),
            id.0 < usize::MAX,
        ensures
            r.wf(),
            r@ == term_added(old(self)@, without_filter_view(id.0)),
            *final(self) == *final(r),
    {
        let mut access = FilteredAccess::default();
        access.and_without(id);
        proof {
            self.access.lemma_filters_len_bound();
            assert(access@.filters.len() == 1);
            assert(self@.access.filters.len() * 1 <= usize::MAX);
        }
        self.extend_access(access);
        self
    }

    /// Adds `&T` to the [`FilteredAccess`] of self.
    pub fn ref_id(&mut self, id: ComponentId) -> (r: &mut Self)
        requires
            old(self).wf(),
            id.0 < usize::MAX,
        ensures
            r.wf(),
            r@ == (QueryBuilderView {
                access: read_added_view(term_added(old(self)@, with_filter_view(id.0)).access, id.0),
                ..term_added(old(self)@, with_filter_view(id.0))
            }),
            *final(self) == *final(r),
    {
        self.with_id(id);
        self.access.add_read(id);
        self
    }

    /// Adds `&mut T` to the [`FilteredAccess`] of self.
    pub fn mut_id(&mut self, id: ComponentId) -> (r: &mut Self)
        requires
            old(self).wf(),
            id.0 < usize::MAX,
        ensures
            r.wf(),
            r@ == (QueryBuilderView {
                access: write_added_view(term_added(old(self)@, with_filter_view(id.0)).access, id.0),
                ..term_added(old(self)@, with_filter_view(id.0))
            }),
            *final(self) == *final(r),
    {
        self.with_id(id);
        self.access.add_write(id);
        self
    }

    /// Takes a function over a [`QueryBuilder`], calls that function on an
    /// empty builder and then adds all accesses from that builder to self as
    /// optional: only its unfiltered access is added.
    pub fn optional(&mut self, f: impl Fn(QueryBuilder) -> QueryBuilder) -> (r: &mut Self)
        requires
            old(self).wf(),
            forall|b: QueryBuilder| b.wf() ==> #[trigger] f.requires((b,)),
            forall|b: QueryBuilder, out: QueryBuilder| b.wf() && #[trigger] f.ensures((b,), out) ==> out.wf(),
        ensures
            r.wf(),
            *final(self) == *final(r),
            exists|b: QueryBuilder, out: QueryBuilder|
                {
                    &&& b.wf()
                    &&& b@ == empty_builder_view(old(self)@.world_id)
                    &&& #[trigger] f.ensures((b,), out)
                    &&& r@ == (QueryBuilderView {
                        access: access_extended_view(old(self)@.access, out@.access),
                        ..old(self)@
                    })
                },
    {
        let builder = QueryBuilder::empty(self.world_id, false);
        let ghost b = builder;
        let out = f(builder);
        self.access.extend_access(out.access());
        assert(f.ensures((b,), out));
        self
    }

    /// Takes a function over a [`QueryBuilder`], calls that function on an
    /// empty builder and then adds all accesses from that builder to self.
    ///
    /// Primarily used inside an [`Self::or`] group to group several terms.
    pub fn and(&mut self, f: impl Fn(QueryBuilder) -> QueryBuilder) -> (r: &mut Self)
        requires
            old(self).wf(),
            forall|b: QueryBuilder| b.wf() ==> #[trigger] f.requires((b,)),
            forall|b: QueryBuilder, out: QueryBuilder| b.wf() && #[trigger] f.ensures((b,), out) ==> out.wf()
                && term_fits(old(self)@, out@.access.filters.len()),
        ensures
            r.wf(),
            *final(self) == *final(r),
            exists|b: QueryBuilder, out: QueryBuilder|
                {
                    &&& b.wf()
                    &&& b@ == empty_builder_view(old(self)@.world_id)
                    &&& #[trigger] f.ensures((b,), out)
                    &&& r@ == term_added(old(self)@, out@.access)
                },
    {
        let builder = QueryBuilder::empty(self.world_id, false);
        let ghost b = builder;
        let out = f(builder);
        let access = out.access().clone();
        self.extend_access(access);
        assert(f.ensures((b,), out));
        self
    }

    /// Takes a function over a [`QueryBuilder`], calls that function on an
    /// empty builder, all accesses added to that builder will become terms in
    /// an OR expression, which is then conjoined to self.
    pub fn or(&mut self, f: impl Fn(QueryBuilder) -> QueryBuilder) -> (r: &mut Self)
        requires
            old(self).wf(),
            forall|b: QueryBuilder| b.wf() ==> #[trigger] f.requires((b,)),
            forall|b: QueryBuilder, out: QueryBuilder| b.wf() && #[trigger] f.ensures((b,), out) ==> out.wf()
                && old(self)@.access.filters.len() * out@.access.filters.len() <= usize::MAX,
        ensures
            r.wf(),
            *final(self) == *final(r),
            exists|b: QueryBuilder, out: QueryBuilder|
                {
                    &&& b.wf()
                    &&& b@ == or_builder_view(old(self)@.world_id)
                    &&& #[trigger] f.ensures((b,), out)
                    &&& r@ == (QueryBuilderView {
                        access: extended_view(old(self)@.access, out@.access),
                        ..old(self)@
                    })
                },
    {
        let builder = QueryBuilder::empty(self.world_id, true);
        let ghost b = builder;
        let out = f(builder);
        self.access.extend(out.access());
        assert(f.ensures((b,), out));
        self
    }

    /// Returns whether the built query, with the data term `fetch_state` and
    /// the filter term `filter_state`, can be iterated table by table, when
    /// the components stored in tables are `table_components`. A component
    /// not known to be stored in a table is taken to be sparse.
    ///
    /// Both terms must allow dense iteration, and so must every component of
    /// a `With` or `Without` filter. Data added without a filter (such as
    /// optional access) does not prevent dense iteration.
    pub fn is_dense(&self, fetch_state: &QueryTerm, filter_state: &QueryTerm, table_components: &ComponentIdSet) -> (r: bool)
        requires
            self.wf(),
        ensures
            r == dense_for(self@.access, *fetch_state, *filter_state, table_components@),
    {
        if !(fetch_state.is_dense() && filter_state.is_dense()) {
            return false;
        }
        let filters = self.access.filter_sets();
        let mut f: usize = 0;
        while f < filters.len()
            invariant
                f <= filters@.len(),
                filters@ == self.access.filters(),
                forall|j: int|
                    0 <= j < f ==> (#[trigger] self@.access.filters[j]).0.subset_of(table_components@)
                        && self@.access.filters[j].1.subset_of(table_components@),
            decreases filters@.len() - f,
        {
            if !(filters[f].with.is_subset(table_components) && filters[f].without.is_subset(table_components)) {
                assert(!(self@.access.filters[f as int].0.subset_of(table_components@)
                    && self@.access.filters[f as int].1.subset_of(table_components@)));
                return false;
            }
            f = f + 1;
        }
        true
    }

    /// Returns the id of the world passed to [`Self::new`].
    pub fn world(&self) -> (r: WorldId)
        ensures
            r == self@.world_id,
    {
        self.world_id
    }

    /// Creates the [`QueryState`] of the built query, for its data term
    /// `fetch_state` and filter term `filter_state`, in the builder's world,
    /// where the components stored in tables are `table_components`, and
    /// matches it against `archetypes`.
    pub fn build(
        &self,
        fetch_state: QueryTerm,
        filter_state: QueryTerm,
        table_components: &ComponentIdSet,
        archetypes: &Archetypes,
    ) -> (r: QueryState)
        requires
            self.wf(),
            fetch_state.wf(),
            archetypes.wf(),
        ensures
            r.wf(),
            exists|required: Seq<ComponentId>|
                enumerates(required, self@.access.required) && r@ == after_update(
                    fresh_state(
                        self@.world_id,
                        fetch_state,
                        filter_state,
                        self@.access,
                        dense_for(self@.access, fetch_state, filter_state, table_components@),
                    ),
                    archetypes@,
                    required,
                ),
    {
        QueryState::from_builder(self, fetch_state, filter_state, table_components, archetypes)
    }

    /// Returns a reference to the [`FilteredAccess`] that will be provided to
    /// the built query.
    pub fn access(&self) -> (r: &FilteredAccess)
        requires
            self.wf(),
        ensures
            r.wf(),
            r@ == self@.access,
    {
        &self.access
    }

    /// Transmutes the builder to the new query data `new_fetch`, adding its
    /// required accesses. This maintains all existing accesses.
    pub fn transmute(&mut self, new_fetch: &QueryTerm) -> (r: &mut Self)
        requires
            old(self).wf(),
            new_fetch.wf(),
        ensures
            r.wf(),
            r@ == term_added(old(self)@, updated_view(matches_everything_view(), *new_fetch)),
            *final(self) == *final(r),
    {
        self.transmute_filtered(new_fetch, &QueryTerm::NoAccess)
    }

    /// Transmutes the builder to the new query data `new_fetch` and filter
    /// `new_filter`, adding their required accesses, registered one after
    /// the other. This maintains all existing accesses.
    ///
    /// The filter may not clash with the access of the data.
    pub fn transmute_filtered(&mut self, new_fetch: &QueryTerm, new_filter: &QueryTerm) -> (r: &mut Self)
        requires
            old(self).wf(),
            new_fetch.wf(),
            new_filter.wf(),
            !conflicts_view(*new_filter, updated_view(matches_everything_view(), *new_fetch).access),
        ensures
            r.wf(),
            r@ == term_added(
                old(self)@,
                updated_view(updated_view(matches_everything_view(), *new_fetch), *new_filter),
            ),
            *final(self) == *final(r),
    {
        let mut access = QueryBuilder::term_access(new_fetch);
        proof {
            lemma_conflicts_view(*new_filter, &access);
        }
        new_filter.update_component_access(&mut access);
        proof {
            self.access.lemma_filters_len_bound();
            assert(access@.filters.len() == 1);
        }
        self.extend_access(access);
        self
    }
}

/// Inside an OR group, two `With` terms become two alternatives: the group
/// built from `With<a>` then `With<b>` has the filter sets `{With a}` and
/// `{With b}`, and no data access, as `Or<(With<A>, With<B>)>` has.
pub proof fn lemma_or_group_of_withs(world_id: WorldId, a: usize, b: usize)
    ensures
        ({
            let g = term_added(term_added(or_builder_view(world_id), with_filter_view(a)), with_filter_view(b));
            &&& g.access.filters == seq![
                (set![a], Set::<usize>::empty()),
                (set![b], Set::<usize>::empty()),
            ]
            &&& g.access.required == Set::<usize>::empty()
            &&& g.access.access.reads == Set::<usize>::empty()
            &&& g.access.access.writes == Set::<usize>::empty()
        }),
{
    let m = matches_everything_view();
    let g1 = term_added(or_builder_view(world_id), with_filter_view(a));
    let p = g1.access.filters;
    assert(0int / 1int == 0 && 0int % 1int == 0);
    assert(m.filters.len() == 1);
    assert(with_filter_view(a).filters.len() == 1);
    assert(with_filter_view(b).filters.len() == 1);
    let wa = FilteredAccessView { required: Set::empty(), ..with_filter_view(a) };
    assert(or_builder_view(world_id).or && or_builder_view(world_id).first);
    assert(g1.access == extended_view(m, wa));
    assert(p == filter_product(m.filters, wa.filters));
    assert(wa.filters.len() == 1);
    assert(m.filters.len() * wa.filters.len() == 1) by (nonlinear_arith)
        requires
            m.filters.len() == 1,
            wa.filters.len() == 1,
    ;
    assert(p.len() == 1);
    assert(with_filter_view(a).filters[0].0 =~= set![a]);
    assert(p[0].0 =~= set![a]);
    assert(p[0].1 =~= Set::<usize>::empty());
    let g = term_added(g1, with_filter_view(b));
    assert(with_filter_view(b).filters[0].0 =~= set![b]);
    assert(g.access.filters =~= seq![
        (set![a], Set::<usize>::empty()),
        (set![b], Set::<usize>::empty()),
    ]);
    assert(g.access.required =~= Set::<usize>::empty());
    assert(g.access.access.reads =~= Set::<usize>::empty());
    assert(g.access.access.writes =~= Set::<usize>::empty());
}

/// A query can be iterated table by table exactly when both its terms allow
/// it and every component that one of its filter sets requires or excludes
/// is stored in a table: a single `With` or `Without` filter on a component
/// kept elsewhere forces sparse iteration.
pub proof fn lemma_dense_iff_filters_in_tables(a: FilteredAccessView, fetch: QueryTerm, filter: QueryTerm, tables: Set<usize>)
    ensures
        dense_for(a, fetch, filter, tables) <==> {
            &&& fetch.is_dense_spec()
            &&& filter.is_dense_spec()
            &&& forall|i: int, c: usize|
                0 <= i < a.filters.len() && #[trigger] a.filters[i].0.contains(c) ==> tables.contains(c)
            &&& forall|i: int, c: usize|
                0 <= i < a.filters.len() && #[trigger] a.filters[i].1.contains(c) ==> tables.contains(c)
        },
{
    if dense_for(a, fetch, filter, tables) {
        assert forall|i: int, c: usize| 0 <= i < a.filters.len() && #[trigger] a.filters[i].0.contains(c) implies tables.contains(c) by {
            assert(a.filters[i].0.subset_of(tables));
        }
        assert forall|i: int, c: usize| 0 <= i < a.filters.len() && #[trigger] a.filters[i].1.contains(c) implies tables.contains(c) by {
            assert(a.filters[i].1.subset_of(tables));
        }
    }
    if fetch.is_dense_spec() && filter.is_dense_spec() && (forall|i: int, c: usize|
        0 <= i < a.filters.len() && #[trigger] a.filters[i].0.contains(c) ==> tables.contains(c)) && (forall|i: int, c: usize|
        0 <= i < a.filters.len() && #[trigger] a.filters[i].1.contains(c) ==> tables.contains(c)) {
        assert forall|i: int| 0 <= i < a.filters.len() implies (#[trigger] a.filters[i]).0.subset_of(tables)
            && a.filters[i].1.subset_of(tables) by {
            assert forall|c: usize| a.filters[i].0.contains(c) implies tables.contains(c) by {}
            assert forall|c: usize| a.filters[i].1.contains(c) implies tables.contains(c) by {}
        }
    }
}

} // verus!
