//! The cache that links each resource component to the entity holding it.
use crate::component::ComponentId;
use crate::entity::Entity;
use vstd::prelude::*;

verus! {

/// A cache that links each `ComponentId` from a resource to the
/// corresponding entity, kept as a sparse array indexed by component id.
pub struct ResourceEntities {
    entities: Vec<Option<Entity>>,
}

impl View for ResourceEntities {
    type V = Map<usize, Entity>;

    closed spec fn view(&self) -> Map<usize, Entity> {
        Map::new(
            |id: usize| id < self.entities@.len() && self.entities@[id as int] is Some,
            |id: usize| self.entities@[id as int]->Some_0,
        )
    }
}

/// `v` lists the pairs of `m` in increasing order of component id.
pub open spec fn lists_in_order(m: Map<usize, Entity>, v: Seq<(ComponentId, Entity)>) -> bool {
    &&& forall|i: int| 0 <= i < v.len() ==> m.contains_key((#[trigger] v[i]).0.0) && m[v[i].0.0] == v[i].1
    &&& forall|i: int, j: int| 0 <= i < j < v.len() ==> (#[trigger] v[i]).0.0 < (#[trigger] v[j]).0.0
    &&& forall|id: usize| #[trigger] m.contains_key(id) ==> exists|i: int| 0 <= i < v.len() && (#[trigger] v[i]).0.0 == id
}

impl ResourceEntities {
    /// An empty cache.
    pub fn new() -> (r: ResourceEntities)
        ensures
            r@ == Map::<usize, Entity>::empty(),
    {
        let r = ResourceEntities { entities: Vec::new() };
        assert(r@ =~= Map::<usize, Entity>::empty());
        r
    }

    /// Records `entity` as the holder of resource component `id`.
    pub fn insert(&mut self, id: ComponentId, entity: Entity)
        requires
            id.0 < usize::MAX,
        ensures
            final(self)@ == old(self)@.insert(id.0, entity),
    {
        while self.entities.len() <= id.0
            invariant
                self@ == old(self)@,
                id.0 < usize::MAX,
            decreases id.0 + 1 - self.entities@.len(),
        {
            let ghost before = self.entities@;
            self.entities.push(None);
            assert(self@ =~= old(self)@) by {
                assert forall|k: usize| k < before.len() implies self.entities@[k as int] == before[k as int] by {}
            }
        }
        self.entities.set(id.0, Some(entity));
        assert(self@ =~= old(self)@.insert(id.0, entity));
    }

    /// Forgets the holder of resource component `id`.
    pub fn remove(&mut self, id: ComponentId)
        ensures
            final(self)@ == old(self)@.remove(id.0),
    {
        if id.0 < self.entities.len() {
            self.entities.set(id.0, None);
        }
        assert(self@ =~= old(self)@.remove(id.0));
    }

    /// Returns all registered resource components and their corresponding
    /// entity, in increasing order of component id.
    ///
    /// This must scan the entire array of components to find non-empty
    /// values, which may be slow even if there are few resources.
    pub fn iter(&self) -> (r: Vec<(ComponentId, Entity)>)
        ensures
            lists_in_order(self@, r@),
    {
        let mut r: Vec<(ComponentId, Entity)> = Vec::new();
        let mut i: usize = 0;
        while i < self.entities.len()
            invariant
                i <= self.entities@.len(),
                forall|a: int| 0 <= a < r@.len() ==> self@.contains_key((#[trigger] r@[a]).0.0)
                    && self@[r@[a].0.0] == r@[a].1 && r@[a].0.0 < i,
                forall|a: int, b: int| 0 <= a < b < r@.len() ==> (#[trigger] r@[a]).0.0 < (#[trigger] r@[b]).0.0,
                forall|id: usize| #[trigger] self@.contains_key(id) && id < i ==> exists|a: int|
                    0 <= a < r@.len() && (#[trigger] r@[a]).0.0 == id,
            decreases self.entities@.len() - i,
        {
            match self.entities[i] {
                Some(entity) => {
                    let ghost before = r@;
                    r.push((ComponentId(i), entity));
                    assert forall|id: usize| #[trigger] self@.contains_key(id) && id < i + 1 implies exists|a: int|
                        0 <= a < r@.len() && (#[trigger] r@[a]).0.0 == id by {
                        if id == i {
                            assert(r@[before.len() as int].0.0 == id);
                        } else {
                            let a = choose|a: int| 0 <= a < before.len() && (#[trigger] before[a]).0.0 == id;
                            assert(r@[a] == before[a]);
                        }
                    }
                },
                None => {},
            }
            i = i + 1;
        }
        r
    }

    /// Returns the entity for the given resource component, or `None` if
    /// there is no entity.
    pub fn get(&self, id: ComponentId) -> (r: Option<Entity>)
        ensures
            r == (if self@.contains_key(id.0) {
                Some(self@[id.0])
            } else {
                None::<Entity>
            }),
    {
        if id.0 < self.entities.len() {
            self.entities[id.0]
        } else {
            None
        }
    }
}

impl Default for ResourceEntities {
    fn default() -> (r: Self)
        ensures
            r@ == Map::<usize, Entity>::empty(),
    {
        ResourceEntities::new()
    }
}

} // verus!
