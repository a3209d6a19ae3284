use kairos_ecs::entity::Entity;
use kairos_ecs::relationship::RelationshipHookMode;
use kairos_ecs::relationship_source_collection::{
    OrderedRelationshipSourceCollection, RelationshipSourceCollection,
};

fn e(index: u32) -> Entity {
    Entity::from_index_and_generation(index, 0)
}

fn es(indices: &[u32]) -> Vec<Entity> {
    indices.iter().map(|i| e(*i)).collect()
}

#[test]
fn vec_add_remove_iter() {
    let mut v: Vec<Entity> = RelationshipSourceCollection::new();
    assert!(RelationshipSourceCollection::is_empty(&v));
    assert!(RelationshipSourceCollection::add(&mut v, e(1)));
    assert!(RelationshipSourceCollection::add(&mut v, e(2)));
    assert!(RelationshipSourceCollection::add(&mut v, e(1)));
    assert_eq!(RelationshipSourceCollection::len(&v), 3);
    // the last occurrence is removed
    assert!(RelationshipSourceCollection::remove(&mut v, e(1)));
    assert_eq!(RelationshipSourceCollection::iter(&v), es(&[1, 2]));
    assert!(!RelationshipSourceCollection::remove(&mut v, e(7)));
    assert_eq!(v, es(&[1, 2]));
    RelationshipSourceCollection::extend_from_iter(&mut v, &es(&[5, 6]));
    assert_eq!(v, es(&[1, 2, 5, 6]));
    RelationshipSourceCollection::reserve(&mut v, 10);
    RelationshipSourceCollection::shrink_to_fit(&mut v);
    assert_eq!(v, es(&[1, 2, 5, 6]));
    assert_eq!(v.source_to_remove_before_add(), None);
    RelationshipSourceCollection::clear(&mut v);
    assert!(RelationshipSourceCollection::is_empty(&v));
    let w: Vec<Entity> = RelationshipSourceCollection::with_capacity(8);
    assert!(w.is_empty());
}

#[test]
fn vec_swap_insert_and_remove() {
    let mut v = es(&[1, 2, 3]);
    // the entity goes to index 0, the one there goes to the end
    OrderedRelationshipSourceCollection::insert(&mut v, 0, e(9));
    assert_eq!(v, es(&[9, 2, 3, 1]));
    // an index past the end appends
    OrderedRelationshipSourceCollection::insert(&mut v, 100, e(8));
    assert_eq!(v, es(&[9, 2, 3, 1, 8]));
    assert_eq!(v.remove_at(1), Some(e(2)));
    assert_eq!(v, es(&[9, 8, 3, 1]));
    assert_eq!(v.remove_at(10), None);
    assert_eq!(v, es(&[9, 8, 3, 1]));
}

#[test]
fn vec_stable_insert_and_remove() {
    let mut v = es(&[1, 2, 3]);
    v.insert_stable(1, e(7));
    assert_eq!(v, es(&[1, 7, 2, 3]));
    v.insert_stable(50, e(8));
    assert_eq!(v, es(&[1, 7, 2, 3, 8]));
    assert_eq!(v.remove_at_stable(0), Some(e(1)));
    assert_eq!(v, es(&[7, 2, 3, 8]));
    assert_eq!(v.remove_at_stable(4), None);
}

#[test]
fn vec_sort_and_insert_stored() {
    let mut v = vec![
        Entity::from_index_and_generation(5, 1),
        e(9),
        e(2),
        Entity::from_index_and_generation(0, 1),
        e(4),
    ];
    v.sort();
    assert_eq!(
        v,
        vec![
            e(2),
            e(4),
            e(9),
            Entity::from_index_and_generation(0, 1),
            Entity::from_index_and_generation(5, 1),
        ]
    );
    v.insert_stored(e(5));
    assert_eq!(v[2], e(5));
    let mut w = es(&[1, 3, 5]);
    w.insert_stored(e(0));
    w.insert_stored(e(6));
    w.insert_stored(e(3));
    assert_eq!(w, es(&[0, 1, 3, 3, 5, 6]));
}

#[test]
fn vec_place() {
    let mut v = es(&[1, 2, 3, 4]);
    v.place_most_recent(1);
    assert_eq!(v, es(&[1, 4, 2, 3]));
    v.place(e(1), 2);
    assert_eq!(v, es(&[4, 2, 1, 3]));
    // an index past the end puts the entity at the end
    v.place(e(4), 10);
    assert_eq!(v, es(&[2, 1, 3, 4]));
    // an entity that is not there changes nothing
    v.place(e(9), 0);
    assert_eq!(v, es(&[2, 1, 3, 4]));
    let mut empty: Vec<Entity> = Vec::new();
    empty.place_most_recent(3);
    assert!(empty.is_empty());
}

#[test]
fn vec_front_and_back() {
    let mut v = es(&[1, 2]);
    v.push_front(e(0));
    assert_eq!(v[0], e(0));
    v.push_back(e(9));
    assert_eq!(v.last(), Some(&e(9)));
    assert_eq!(v.pop_back(), Some(e(9)));
    assert_eq!(v.pop_front(), Some(e(0)));
    assert_eq!(v, es(&[1, 2]));
    let mut empty: Vec<Entity> = Vec::new();
    assert_eq!(empty.pop_front(), None);
    assert_eq!(empty.pop_back(), None);
}

#[test]
fn entity_as_collection() {
    let mut one: Entity = RelationshipSourceCollection::new();
    assert_eq!(one, Entity::placeholder());
    assert_eq!(RelationshipSourceCollection::len(&one), 0);
    assert!(RelationshipSourceCollection::iter(&one).is_empty());
    assert_eq!(one.source_to_remove_before_add(), None);
    assert!(RelationshipSourceCollection::add(&mut one, e(3)));
    assert_eq!(RelationshipSourceCollection::len(&one), 1);
    assert_eq!(RelationshipSourceCollection::iter(&one), es(&[3]));
    assert_eq!(one.source_to_remove_before_add(), Some(e(3)));
    assert!(!RelationshipSourceCollection::remove(&mut one, e(4)));
    assert!(RelationshipSourceCollection::remove(&mut one, e(3)));
    assert!(RelationshipSourceCollection::is_empty(&one));
    RelationshipSourceCollection::extend_from_iter(&mut one, &es(&[5, 6]));
    assert_eq!(one, e(6));
    RelationshipSourceCollection::clear(&mut one);
    assert_eq!(one, Entity::placeholder());
}

#[test]
fn entity_bits_and_order() {
    let a = Entity::from_index_and_generation(7, 2);
    assert_eq!(a.index(), 7);
    assert_eq!(a.generation(), 2);
    assert_eq!(a.to_bits(), (2u64 << 32) | 7);
    assert!(e(100).le(&a));
    assert!(!a.le(&e(100)));
    assert_eq!(Entity::placeholder().index(), u32::MAX - 1);
}

#[test]
fn relationship_hook_modes() {
    assert!(RelationshipHookMode::Run.hooks_run(true));
    assert!(RelationshipHookMode::RunIfNotLinked.hooks_run(false));
    assert!(!RelationshipHookMode::RunIfNotLinked.hooks_run(true));
    assert!(!RelationshipHookMode::Skip.hooks_run(false));
}

#[test]
fn removing_the_placeholder() {
    let mut v = es(&[1, 2]);
    assert!(!RelationshipSourceCollection::remove(&mut v, Entity::placeholder()));
    assert_eq!(v, es(&[1, 2]));
    let mut one = Entity::placeholder();
    assert!(RelationshipSourceCollection::remove(&mut one, Entity::placeholder()));
    let mut other = e(4);
    assert!(!RelationshipSourceCollection::remove(&mut other, Entity::placeholder()));
    assert_eq!(other, e(4));
}
