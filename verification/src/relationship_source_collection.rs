//! The collections of source entities held by relationship targets.
use crate::entity::Entity;
use vstd::prelude::*;

verus! {

broadcast use vstd::seq_lib::group_to_multiset_ensures;

/// The entities of `s` are in order.
pub open spec fn sorted_entities(s: Seq<Entity>) -> bool {
    forall|i: int, j: int| 0 <= i < j < s.len() ==> #[trigger] s[i].key() <= #[trigger] s[j].key()
}

/// `k` is the position of the last occurrence of `e` in `s`.
pub open spec fn is_last_occurrence(s: Seq<Entity>, e: Entity, k: int) -> bool {
    &&& 0 <= k < s.len()
    &&& s[k] == e
    &&& forall|j: int| k < j < s.len() ==> #[trigger] s[j] != e
}

/// `k` is the position of the first occurrence of `e` in `s`.
pub open spec fn is_first_occurrence(s: Seq<Entity>, e: Entity, k: int) -> bool {
    &&& 0 <= k < s.len()
    &&& s[k] == e
    &&& forall|j: int| 0 <= j < k ==> #[trigger] s[j] != e
}

/// `s` with the entities at `i` and `j` exchanged.
pub open spec fn swapped(s: Seq<Entity>, i: int, j: int) -> Seq<Entity> {
    s.update(i, s[j]).update(j, s[i])
}

/// `s` with `e` pushed at the end, then exchanged with the entity at `index`
/// when there is one there.
pub open spec fn swap_inserted(s: Seq<Entity>, index: int, e: Entity) -> Seq<Entity> {
    let t = s.push(e);
    if index < t.len() {
        swapped(t, index, t.len() - 1)
    } else {
        t
    }
}

/// `p` is where `e` goes in `s` to keep it in order, when `s` is in order:
/// every entity before `p` is not after `e`, every entity from `p` on is
/// after it.
pub open spec fn is_partition_point(s: Seq<Entity>, e: Entity, p: int) -> bool {
    &&& 0 <= p <= s.len()
    &&& sorted_entities(s) ==> (forall|i: int| 0 <= i < p ==> (#[trigger] s[i]).key() <= e.key())
    &&& sorted_entities(s) ==> (forall|i: int| p <= i < s.len() ==> (#[trigger] s[i]).key() > e.key())
}

/// Exchanging two entities keeps the multiset of entities.
proof fn lemma_swapped_multiset(s: Seq<Entity>, i: int, j: int)
    requires
        0 <= i < s.len(),
        0 <= j < s.len(),
    ensures
        swapped(s, i, j).to_multiset() =~= s.to_multiset(),
        swapped(s, i, j).len() == s.len(),
{
    let t = s.update(i, s[j]);
    vstd::seq_lib::to_multiset_update(s, i, s[j]);
    vstd::seq_lib::to_multiset_update(t, j, s[i]);
    if i == j {
        assert(swapped(s, i, j) =~= s);
    } else {
        assert(t[j] == s[j]);
    }
}

/// Inserting at a partition point keeps a sequence in order.
proof fn lemma_insert_at_partition_point(s: Seq<Entity>, e: Entity, p: int)
    requires
        sorted_entities(s),
        is_partition_point(s, e, p),
    ensures
        sorted_entities(s.insert(p, e)),
{
    let t = s.insert(p, e);
    s.insert_ensures(p, e);
    assert forall|i: int, j: int| 0 <= i < j < t.len() implies #[trigger] t[i].key() <= #[trigger] t[j].key() by {
        if i < p && j < p {
            assert(t[i] == s[i] && t[j] == s[j]);
        } else if i < p && j == p {
            assert(t[i] == s[i]);
        } else if i < p {
            assert(t[i] == s[i] && t[j] == s[j - 1]);
        } else if i == p {
            assert(t[j] == s[j - 1]);
        } else {
            assert(t[i] == s[i - 1] && t[j] == s[j - 1]);
        }
    }
}

/// A sequence in order holds its entities in the only order that sorts them:
/// two ordered sequences with the same entities are equal.
pub proof fn lemma_sorted_unique(a: Seq<Entity>, b: Seq<Entity>)
    requires
        sorted_entities(a),
        sorted_entities(b),
        a.to_multiset() == b.to_multiset(),
    ensures
        a == b,
    decreases a.len(),
{
    if a.len() == 0 {
        assert(a.to_multiset().len() == a.len());
        assert(b.to_multiset().len() == b.len());
        assert(b.to_multiset().len() == 0);
        assert(b =~= a);
    } else {
        assert(a.to_multiset().len() == a.len());
        assert(b.to_multiset().len() == b.len());
        assert(b.len() == a.len());
        let x = a.last();
        let y = b.last();
        // the last entity of an ordered sequence is its greatest
        assert(a.to_multiset().count(y) > 0);
        assert(b.to_multiset().count(x) > 0);
        assert(a.contains(y));
        assert(b.contains(x));
        let iy = choose|i: int| 0 <= i < a.len() && a[i] == y;
        let ix = choose|i: int| 0 <= i < b.len() && b[i] == x;
        if iy < a.len() - 1 {
            assert(a[iy].key() <= a[a.len() - 1].key());
        }
        if ix < b.len() - 1 {
            assert(b[ix].key() <= b[b.len() - 1].key());
        }
        assert(x.key() == y.key());
        Entity::lemma_key_injective(x, y);
        let a2 = a.drop_last();
        let b2 = b.drop_last();
        assert(a2.push(x) =~= a);
        assert(b2.push(y) =~= b);
        assert(a2.to_multiset() =~= a.to_multiset().remove(x));
        assert(b2.to_multiset() =~= b.to_multiset().remove(y));
        assert(sorted_entities(a2));
        assert(sorted_entities(b2));
        lemma_sorted_unique(a2, b2);
    }
}

/// Removing an entity right after adding it to a list gives the list back:
/// the added entity is its last occurrence, the one that is removed.
pub proof fn lemma_add_then_remove(s: Seq<Entity>, e: Entity)
    ensures
        is_last_occurrence(s.push(e), e, s.len() as int),
        s.push(e).remove(s.len() as int) == s,
{
    assert(s.push(e).remove(s.len() as int) =~= s);
}

/// Popping the front right after pushing an entity there gives the entity
/// and the list back.
pub proof fn lemma_push_front_then_pop_front(s: Seq<Entity>, e: Entity)
    ensures
        swap_inserted(s, 0, e)[0] == e,
        swap_inserted(s, 0, e).update(0, swap_inserted(s, 0, e).last()).drop_last() == s,
{
    let t = swap_inserted(s, 0, e);
    if s.len() == 0 {
        assert(t.update(0, t.last()).drop_last() =~= s);
    } else {
        assert(t.last() == s[0]);
        assert(t.update(0, t.last()).drop_last() =~= s);
    }
}

/// Returns the position of the last occurrence of `entity` in `v`, if any.
fn rposition(v: &Vec<Entity>, entity: Entity) -> (r: Option<usize>)
    ensures
        r matches Some(k) ==> is_last_occurrence(v@, entity, k as int),
        r is None <==> !v@.contains(entity),
{
    let mut i: usize = v.len();
    while i > 0
        invariant
            i <= v@.len(),
            forall|j: int| i <= j < v@.len() ==> #[trigger] v@[j] != entity,
        decreases i,
    {
        if v[i - 1] == entity {
            return Some(i - 1);
        }
        i = i - 1;
    }
    None
}

/// Removes the last occurrence of `entity` from `v`, and returns whether
/// there was one.
pub fn remove_last_occurrence(v: &mut Vec<Entity>, entity: Entity) -> (r: bool)
    ensures
        r == old(v)@.contains(entity),
        r ==> exists|k: int| is_last_occurrence(old(v)@, entity, k) && final(v)@ == old(v)@.remove(k),
        !r ==> final(v)@ == old(v)@,
{
    // Scan from the back. Recently added entities live at the tail and are
    // more likely to be despawned. This exploits temporal locality to keep
    // the search cheap.
    match rposition(v, entity) {
        Some(index) => {
            v.remove(index);
            assert(is_last_occurrence(old(v)@, entity, index as int));
            true
        },
        None => false,
    }
}

/// Returns the position of the first occurrence of `entity` in `v`, if any.
fn position(v: &Vec<Entity>, entity: Entity) -> (r: Option<usize>)
    ensures
        r matches Some(k) ==> is_first_occurrence(v@, entity, k as int),
        r is None <==> !v@.contains(entity),
{
    let mut i: usize = 0;
    while i < v.len()
        invariant
            i <= v@.len(),
            forall|j: int| 0 <= j < i ==> #[trigger] v@[j] != entity,
        decreases v@.len() - i,
    {
        if v[i] == entity {
            return Some(i);
        }
        i = i + 1;
    }
    None
}

/// Returns where `entity` goes in `v` to keep it in order: the first position
/// whose entity comes after `entity`, found by binary search.
fn partition_point(v: &Vec<Entity>, entity: &Entity) -> (r: usize)
    ensures
        is_partition_point(v@, *entity, r as int),
{
    let mut lo: usize = 0;
    let mut hi: usize = v.len();
    while lo < hi
        invariant
            0 <= lo <= hi <= v@.len(),
            sorted_entities(v@) ==> (forall|i: int| 0 <= i < lo ==> (#[trigger] v@[i]).key() <= entity.key()),
            sorted_entities(v@) ==> (forall|i: int| hi <= i < v@.len() ==> (#[trigger] v@[i]).key() > entity.key()),
        decreases hi - lo,
    {
        let mid = lo + (hi - lo) / 2;
        if v[mid].le(entity) {
            proof {
                if sorted_entities(v@) {
                    assert forall|i: int| 0 <= i < mid + 1 implies (#[trigger] v@[i]).key() <= entity.key() by {
                        if i < mid {
                            assert(v@[i].key() <= v@[mid as int].key());
                        }
                    }
                }
            }
            lo = mid + 1;
        } else {
            proof {
                if sorted_entities(v@) {
                    assert forall|i: int| mid <= i < v@.len() implies (#[trigger] v@[i]).key() > entity.key() by {
                        if i > mid {
                            assert(v@[mid as int].key() <= v@[i].key());
                        }
                    }
                }
            }
            hi = mid;
        }
    }
    lo
}

/// Exchanges the entities at `i` and `j`.
fn swap_entities(v: &mut Vec<Entity>, i: usize, j: usize)
    requires
        i < old(v)@.len(),
        j < old(v)@.len(),
    ensures
        final(v)@ == swapped(old(v)@, i as int, j as int),
{
    let a = v[i];
    let b = v[j];
    v.set(i, b);
    v.set(j, a);
}

/// Shrinks the capacity of `v` as much as possible (`Vec::shrink_to_fit`);
/// the entities are unchanged.
#[verifier::external_body]
fn vec_shrink_to_fit(v: &mut Vec<Entity>)
    ensures
        final(v)@ == old(v)@,
{
    v.shrink_to_fit()
}

/// The internal [`Entity`] collection used by a relationship target
/// component. This is not intended to be modified directly by users, as it
/// could invalidate the correctness of relationships.
pub trait RelationshipSourceCollection: Sized {
    /// The entities of the collection, in iteration order.
    spec fn entities(&self) -> Seq<Entity>;

    /// Creates a new empty instance.
    fn new() -> (r: Self)
        ensures
            r.entities().len() == 0,
    ;

    /// Returns an instance with the given pre-allocated entity `capacity`.
    ///
    /// Some collections will ignore the provided `capacity` and return a
    /// default instance.
    fn with_capacity(capacity: usize) -> (r: Self)
        ensures
            r.entities().len() == 0,
    ;

    /// Reserves capacity for at least `additional` more entities to be
    /// inserted.
    ///
    /// Not all collections support this operation, in which case it is a
    /// no-op.
    fn reserve(&mut self, additional: usize)
        ensures
            final(self).entities() == old(self).entities(),
    ;

    /// Adds the given `entity` to the collection.
    ///
    /// Returns whether the entity was added to the collection: it is then in
    /// it (unless it is the placeholder that stands for an empty
    /// single-entity collection); otherwise the collection is unchanged.
    fn add(&mut self, entity: Entity) -> (r: bool)
        ensures
            r ==> final(self).entities().contains(entity) || (Self::empty_is_placeholder() && entity
                == Entity::placeholder_spec()),
            !r ==> final(self).entities() == old(self).entities(),
    ;

    /// Whether the collection holds at most one entity and its empty value
    /// is the placeholder entity, so that removing the placeholder from an
    /// empty collection succeeds.
    spec fn empty_is_placeholder() -> bool;

    /// Removes the given `entity` from the collection: its last occurrence,
    /// in iteration order.
    ///
    /// Returns whether the collection actually contained the entity (or, for
    /// a collection whose empty value is the placeholder, whether the entity
    /// is that value).
    fn remove(&mut self, entity: Entity) -> (r: bool)
        ensures
            old(self).entities().contains(entity) ==> r && exists|k: int|
                is_last_occurrence(old(self).entities(), entity, k) && final(self).entities()
                    == old(self).entities().remove(k),
            !old(self).entities().contains(entity) ==> final(self).entities() == old(self).entities(),
            !old(self).entities().contains(entity) ==> r == (Self::empty_is_placeholder() && entity
                == Entity::placeholder_spec() && old(self).entities().len() == 0),
    ;

    /// Lists all entities in the collection, in iteration order.
    fn iter(&self) -> (r: Vec<Entity>)
        ensures
            r@ == self.entities(),
    ;

    /// A collection holds at most `usize::MAX` entities.
    proof fn lemma_len_bound(&self)
        ensures
            self.entities().len() <= usize::MAX,
    ;

    /// Returns the current length of the collection.
    fn len(&self) -> (r: usize)
        ensures
            r == self.entities().len(),
    ;

    /// Clears the collection.
    fn clear(&mut self)
        ensures
            final(self).entities().len() == 0,
    ;

    /// Attempts to save memory by shrinking the capacity to fit the current
    /// length.
    ///
    /// This operation is a no-op for collections that do not support it.
    fn shrink_to_fit(&mut self)
        ensures
            final(self).entities() == old(self).entities(),
    ;

    /// Returns true if the collection contains no entities.
    fn is_empty(&self) -> (r: bool)
        ensures
            r == (self.entities().len() == 0),
    {
        self.len() == 0
    }

    /// For one-to-one relationships, returns the entity that should be
    /// removed before adding a new one. Returns `None` for one-to-many
    /// relationships or when no entity needs to be removed.
    fn source_to_remove_before_add(&self) -> (r: Option<Entity>)
        ensures
            r matches Some(e) ==> self.entities().contains(e),
        default_ensures
            r is None,
    {
        None
    }

    /// Add multiple entities to collection at once.
    ///
    /// May be faster than repeatedly calling [`Self::add`].
    fn extend_from_iter(&mut self, entities: &[Entity])
        ensures
            forall|x: Entity|
                #[trigger] final(self).entities().contains(x) ==> old(self).entities().contains(x)
                    || entities@.contains(x),
            !Self::empty_is_placeholder() ==> forall|i: int|
                0 <= i < entities@.len() ==> final(self).entities().contains(#[trigger] entities@[i]),
            entities@.len() > 0 && entities@.last() != Entity::placeholder_spec() ==> final(self).entities().contains(entities@.last()),
    ;
}

/// This trait signals that a [`RelationshipSourceCollection`] is ordered.
pub trait OrderedRelationshipSourceCollection: RelationshipSourceCollection {
    /// Inserts the entity at a specific index.
    /// If the index is too large, the entity will be added to the end of the
    /// collection.
    fn insert(&mut self, index: usize, entity: Entity)
        ensures
            final(self).entities().len() == old(self).entities().len() + 1,
            final(self).entities().to_multiset() == old(self).entities().to_multiset().insert(entity),
            final(self).entities()[if index < old(self).entities().len() {
                index as int
            } else {
                old(self).entities().len() as int
            }] == entity,
    ;

    /// Removes the entity at the specified index if it exists.
    fn remove_at(&mut self, index: usize) -> (r: Option<Entity>)
        ensures
            r is Some <==> index < old(self).entities().len(),
            r matches Some(e) ==> e == old(self).entities()[index as int]
                && final(self).entities().len() == old(self).entities().len() - 1
                && final(self).entities().to_multiset() == old(self).entities().to_multiset().remove(e),
            r is None ==> final(self).entities() == old(self).entities(),
    ;

    /// Inserts the entity at a specific index.
    /// This will never reorder other entities.
    /// If the index is too large, the entity will be added to the end of the
    /// collection.
    fn insert_stable(&mut self, index: usize, entity: Entity)
        ensures
            final(self).entities() == old(self).entities().insert(
                if index < old(self).entities().len() {
                    index as int
                } else {
                    old(self).entities().len() as int
                },
                entity,
            ),
    ;

    /// Removes the entity at the specified index if it exists.
    /// This will never reorder other entities.
    fn remove_at_stable(&mut self, index: usize) -> (r: Option<Entity>)
        ensures
            index < old(self).entities().len() ==> r == Some(old(self).entities()[index as int])
                && final(self).entities() == old(self).entities().remove(index as int),
            index >= old(self).entities().len() ==> r is None && final(self).entities() == old(
                self,
            ).entities(),
    ;

    /// Sorts the source collection.
    fn sort(&mut self)
        ensures
            sorted_entities(final(self).entities()),
            final(self).entities().to_multiset() == old(self).entities().to_multiset(),
    ;

    /// Inserts the entity at the proper place to maintain sorting.
    fn insert_stored(&mut self, entity: Entity)
        ensures
            exists|p: int|
                is_partition_point(old(self).entities(), entity, p) && final(self).entities()
                    == old(self).entities().insert(p, entity),
    ;

    /// This places the most recently added entity at the particular index.
    fn place_most_recent(&mut self, index: usize)
        ensures
            final(self).entities().len() == old(self).entities().len(),
            final(self).entities().to_multiset() == old(self).entities().to_multiset(),
            old(self).entities().len() > 0 ==> final(self).entities()[if index < old(
                self,
            ).entities().len() - 1 {
                index as int
            } else {
                old(self).entities().len() - 1
            }] == old(self).entities().last(),
    ;

    /// This places the given entity at the particular index.
    /// This will do nothing if the entity is not in the collection.
    /// If the index is out of bounds, this will put the entity at the end.
    fn place(&mut self, entity: Entity, index: usize)
        ensures
            !old(self).entities().contains(entity) ==> final(self).entities() == old(self).entities(),
            final(self).entities().len() == old(self).entities().len(),
            final(self).entities().to_multiset() == old(self).entities().to_multiset(),
            old(self).entities().contains(entity) ==> final(self).entities()[if index < old(
                self,
            ).entities().len() - 1 {
                index as int
            } else {
                old(self).entities().len() - 1
            }] == entity,
    ;

    /// Adds the entity at index 0.
    fn push_front(&mut self, entity: Entity)
        ensures
            final(self).entities().len() == old(self).entities().len() + 1,
            final(self).entities().to_multiset() == old(self).entities().to_multiset().insert(entity),
            final(self).entities()[0] == entity,
    {
        self.insert(0, entity);
    }

    /// Adds the entity to the back of the collection.
    fn push_back(&mut self, entity: Entity)
        ensures
            final(self).entities().len() == old(self).entities().len() + 1,
            final(self).entities().to_multiset() == old(self).entities().to_multiset().insert(entity),
            final(self).entities().last() == entity,
    {
        proof {
            old(self).lemma_len_bound();
        }
        self.insert(usize::MAX, entity);
    }

    /// Removes the first entity.
    fn pop_front(&mut self) -> (r: Option<Entity>)
        ensures
            r is Some <==> old(self).entities().len() > 0,
            r matches Some(e) ==> e == old(self).entities()[0]
                && final(self).entities().len() == old(self).entities().len() - 1
                && final(self).entities().to_multiset() == old(self).entities().to_multiset().remove(e),
            r is None ==> final(self).entities() == old(self).entities(),
    {
        self.remove_at(0)
    }

    /// Removes the last entity.
    fn pop_back(&mut self) -> (r: Option<Entity>)
        ensures
            r is Some <==> old(self).entities().len() > 0,
            r matches Some(e) ==> e == old(self).entities().last()
                && final(self).entities().len() == old(self).entities().len() - 1
                && final(self).entities().to_multiset() == old(self).entities().to_multiset().remove(e),
            r is None ==> final(self).entities() == old(self).entities(),
    {
        if self.is_empty() {
            None
        } else {
            let n = self.len();
            self.remove_at(n - 1)
        }
    }
}

impl RelationshipSourceCollection for Vec<Entity> {
    open spec fn entities(&self) -> Seq<Entity> {
        self@
    }

    open spec fn empty_is_placeholder() -> bool {
        false
    }

    fn new() -> (r: Self) {
        Vec::new()
    }

    fn with_capacity(capacity: usize) -> (r: Self) {
        Vec::with_capacity(capacity)
    }

    fn reserve(&mut self, additional: usize) {
        Vec::reserve(self, additional);
    }

    fn add(&mut self, entity: Entity) -> (r: bool)
        ensures
            r,
            final(self)@ == old(self)@.push(entity),
    {
        Vec::push(self, entity);
        assert(self@[self@.len() - 1] == entity);
        true
    }

    fn remove(&mut self, entity: Entity) -> (r: bool) {
        remove_last_occurrence(self, entity)
    }

    fn iter(&self) -> (r: Vec<Entity>) {
        let mut r: Vec<Entity> = Vec::new();
        let mut i: usize = 0;
        while i < self.len()
            invariant
                i <= self@.len(),
                r@ == self@.take(i as int),
            decreases self@.len() - i,
        {
            r.push(self[i]);
            i = i + 1;
            assert(r@ =~= self@.take(i as int));
        }
        assert(r@ =~= self@);
        r
    }

    proof fn lemma_len_bound(&self) {
        assert(self.len() == self@.len());
    }

    fn len(&self) -> (r: usize) {
        Vec::len(self)
    }

    fn clear(&mut self) {
        Vec::clear(self);
    }

    fn shrink_to_fit(&mut self) {
        vec_shrink_to_fit(self);
    }

    fn extend_from_iter(&mut self, entities: &[Entity])
        ensures
            final(self)@ == old(self)@ + entities@,
    {
        let mut i: usize = 0;
        while i < entities.len()
            invariant
                i <= entities@.len(),
                self@ == old(self)@ + entities@.take(i as int),
            decreases entities@.len() - i,
        {
            Vec::push(self, entities[i]);
            i = i + 1;
            assert(self@ =~= old(self)@ + entities@.take(i as int));
        }
        assert(entities@.take(i as int) =~= entities@);
        proof {
            let n = old(self)@.len();
            assert forall|x: Entity| #[trigger] self@.contains(x) implies old(self)@.contains(x)
                || entities@.contains(x) by {
                let k = choose|k: int| 0 <= k < self@.len() && self@[k] == x;
                if k >= n {
                    assert(entities@[k - n] == x);
                }
            }
            assert forall|i: int| 0 <= i < entities@.len() implies self@.contains(#[trigger] entities@[i]) by {
                assert(self@[n + i] == entities@[i]);
            }
        }
    }
}

impl OrderedRelationshipSourceCollection for Vec<Entity> {
    fn insert(&mut self, index: usize, entity: Entity)
        ensures
            final(self)@ == swap_inserted(old(self)@, index as int, entity),
    {
        Vec::push(self, entity);
        let len = Vec::len(self);
        if index < len {
            proof {
                lemma_swapped_multiset(old(self)@.push(entity), index as int, len - 1);
            }
            swap_entities(self, index, len - 1);
        }
    }

    fn remove_at(&mut self, index: usize) -> (r: Option<Entity>)
        ensures
            index < old(self)@.len() ==> r == Some(old(self)@[index as int]) && final(self)@ == old(
                self,
            )@.update(index as int, old(self)@.last()).drop_last(),
    {
        if index < Vec::len(self) {
            proof {
                let s = old(self)@;
                let t = s.update(index as int, s.last());
                vstd::seq_lib::to_multiset_update(s, index as int, s.last());
                assert(t.drop_last().push(t.last()) =~= t);
                assert(t.last() == s.last());
                assert(t.drop_last().to_multiset() =~= t.to_multiset().remove(s.last()));
            }
            Some(Vec::swap_remove(self, index))
        } else {
            None
        }
    }

    fn insert_stable(&mut self, index: usize, entity: Entity) {
        if index < Vec::len(self) {
            Vec::insert(self, index, entity);
        } else {
            Vec::push(self, entity);
            assert(old(self)@.insert(old(self)@.len() as int, entity) =~= old(self)@.push(entity));
        }
    }

    fn remove_at_stable(&mut self, index: usize) -> (r: Option<Entity>) {
        if index < Vec::len(self) {
            Some(Vec::remove(self, index))
        } else {
            None
        }
    }

    fn sort(&mut self)
        ensures
            final(self)@.len() == old(self)@.len(),
    {
        let mut sorted: Vec<Entity> = Vec::new();
        let mut i: usize = 0;
        while i < Vec::len(self)
            invariant
                i <= self@.len(),
                self@ == old(self)@,
                sorted_entities(sorted@),
                sorted@.to_multiset() == self@.take(i as int).to_multiset(),
            decreases self@.len() - i,
        {
            let entity = self[i];
            let p = partition_point(&sorted, &entity);
            proof {
                lemma_insert_at_partition_point(sorted@, entity, p as int);
                assert(self@.take(i + 1) =~= self@.take(i as int).push(entity));
            }
            Vec::insert(&mut sorted, p, entity);
            i = i + 1;
        }
        proof {
            assert(self@.take(i as int) =~= self@);
            assert(sorted@.to_multiset().len() == sorted@.len());
            assert(self@.to_multiset().len() == self@.len());
        }
        *self = sorted;
    }

    fn insert_stored(&mut self, entity: Entity)
        ensures
            sorted_entities(old(self)@) ==> sorted_entities(final(self)@),
    {
        let index = partition_point(self, &entity);
        proof {
            if sorted_entities(old(self)@) {
                lemma_insert_at_partition_point(old(self)@, entity, index as int);
            }
            if index == old(self)@.len() {
                assert(old(self)@.insert(index as int, entity) =~= old(self)@.push(entity));
            }
        }
        self.insert_stable(index, entity);
    }

    fn place_most_recent(&mut self, index: usize)
        ensures
            old(self)@.len() > 0 ==> final(self)@ == old(self)@.drop_last().insert(
                if index < old(self)@.len() - 1 {
                    index as int
                } else {
                    old(self)@.len() - 1
                },
                old(self)@.last(),
            ),
            old(self)@.len() == 0 ==> final(self)@ == old(self)@,
    {
        if let Some(entity) = Vec::pop(self) {
            let len = Vec::len(self);
            let index = if index < len {
                index
            } else {
                len
            };
            proof {
                assert(self@.push(entity) =~= old(self)@);
                assert(self@.to_multiset().insert(entity) =~= old(self)@.to_multiset());
                self@.insert_ensures(index as int, entity);
            }
            Vec::insert(self, index, entity);
        }
    }

    fn place(&mut self, entity: Entity, index: usize)
        ensures
            old(self)@.contains(entity) ==> exists|k: int|
                is_first_occurrence(old(self)@, entity, k) && final(self)@ == old(self)@.remove(k).insert(
                    if index < old(self)@.len() - 1 {
                        index as int
                    } else {
                        old(self)@.len() - 1
                    },
                    entity,
                ),
    {
        if let Some(current) = position(self, entity) {
            Vec::remove(self, current);
            // an index past the end puts the entity at the end
            let len = Vec::len(self);
            let index = if index < len {
                index
            } else {
                len
            };
            proof {
                assert(is_first_occurrence(old(self)@, entity, current as int));
                assert(self@.to_multiset().insert(entity) =~= old(self)@.to_multiset());
                self@.insert_ensures(index as int, entity);
            }
            Vec::insert(self, index, entity);
        }
    }
}

impl RelationshipSourceCollection for Entity {
    open spec fn entities(&self) -> Seq<Entity> {
        if *self == Entity::placeholder_spec() {
            Seq::empty()
        } else {
            seq![*self]
        }
    }

    open spec fn empty_is_placeholder() -> bool {
        true
    }

    fn new() -> (r: Self)
        ensures
            r == Entity::placeholder_spec(),
    {
        Entity::placeholder()
    }

    fn with_capacity(_capacity: usize) -> (r: Self)
        ensures
            r == Entity::placeholder_spec(),
    {
        Entity::placeholder()
    }

    fn reserve(&mut self, _additional: usize) {
    }

    fn add(&mut self, entity: Entity) -> (r: bool)
        ensures
            r,
            *final(self) == entity,
    {
        *self = entity;
        proof {
            if entity != Entity::placeholder_spec() {
                assert(self.entities()[0] == entity);
            }
        }
        true
    }

    fn remove(&mut self, entity: Entity) -> (r: bool)
        ensures
            r == (*old(self) == entity),
            r ==> *final(self) == Entity::placeholder_spec(),
            !r ==> *final(self) == *old(self),
    {
        let ghost before = *self;
        if *self == entity {
            *self = Entity::placeholder();
            proof {
                if before != Entity::placeholder_spec() {
                    let s = seq![before];
                    assert(s[0] == entity);
                    assert(is_last_occurrence(s, entity, 0));
                    assert(s.remove(0) =~= Seq::<Entity>::empty());
                }
            }
            return true;
        }
        proof {
            if before != Entity::placeholder_spec() {
                assert(!seq![before].contains(entity)) by {
                    if seq![before].contains(entity) {
                        let k = choose|k: int| 0 <= k < 1 && seq![before][k] == entity;
                    }
                }
            }
        }
        false
    }

    fn iter(&self) -> (r: Vec<Entity>) {
        let mut r: Vec<Entity> = Vec::new();
        if *self != Entity::placeholder() {
            r.push(*self);
        }
        assert(r@ =~= self.entities());
        r
    }

    proof fn lemma_len_bound(&self) {
    }

    fn len(&self) -> (r: usize) {
        if *self == Entity::placeholder() {
            return 0;
        }
        1
    }

    fn clear(&mut self)
        ensures
            *final(self) == Entity::placeholder_spec(),
    {
        *self = Entity::placeholder();
    }

    fn shrink_to_fit(&mut self) {
    }

    fn extend_from_iter(&mut self, entities: &[Entity])
        ensures
            entities@.len() == 0 ==> *final(self) == *old(self),
            entities@.len() > 0 ==> *final(self) == entities@.last(),
    {
        let mut i: usize = 0;
        while i < entities.len()
            invariant
                i <= entities@.len(),
                i == 0 ==> *self == *old(self),
                i > 0 ==> *self == entities@[i - 1],
            decreases entities@.len() - i,
        {
            *self = entities[i];
            i = i + 1;
        }
        proof {
            assert forall|x: Entity| #[trigger] self.entities().contains(x) implies old(self).entities().contains(x)
                || entities@.contains(x) by {
                if i > 0 {
                    assert(self.entities()[0] == x);
                    assert(entities@[i - 1] == x);
                }
            }
            if entities@.len() > 0 && entities@.last() != Entity::placeholder_spec() {
                assert(self.entities()[0] == entities@.last());
            }
        }
    }

    fn source_to_remove_before_add(&self) -> (r: Option<Entity>)
        ensures
            r == (if *self != Entity::placeholder_spec() {
                Some(*self)
            } else {
                None::<Entity>
            }),
    {
        if *self != Entity::placeholder() {
            assert(self.entities()[0] == *self);
            Some(*self)
        } else {
            None
        }
    }
}

} // verus!
