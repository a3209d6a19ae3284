use kairos_ecs::access::FilteredAccessSet;
use kairos_ecs::component::ComponentId;
use kairos_ecs::component_id_set::ComponentIdSet;
use kairos_ecs::query_builder::QueryBuilder;
use kairos_ecs::query_state::{Archetypes, QueryState, WorldId};
use kairos_ecs::query_term::{QueryTerm, StorageType};

const WORLD: WorldId = WorldId(1);

fn set(ids: &[usize]) -> ComponentIdSet {
    let mut s = ComponentIdSet::new();
    for id in ids {
        s.insert(ComponentId::new(*id));
    }
    s
}

/// Archetypes: 0 = {A} in table 0, 1 = {A, B} in table 1, 2 = {B} in
/// table 2, 3 = {A, C} in table 1.
fn world_archetypes() -> Archetypes {
    let mut archetypes = Archetypes::new();
    archetypes.push(0, set(&[0]));
    archetypes.push(1, set(&[0, 1]));
    archetypes.push(2, set(&[1]));
    archetypes.push(1, set(&[0, 2]));
    archetypes
}

fn read(id: usize, storage: StorageType) -> QueryTerm {
    QueryTerm::Read(ComponentId::new(id), storage)
}

fn write(id: usize, storage: StorageType) -> QueryTerm {
    QueryTerm::Write(ComponentId::new(id), storage)
}

#[test]
fn state_matches_archetypes_with_read_component() {
    let archetypes = world_archetypes();
    let state = QueryState::new(WORLD, read(0, StorageType::SparseSet), QueryTerm::NoAccess, &archetypes);
    assert_eq!(state.mathced_archetypes(), vec![0, 1, 3]);
    assert_eq!(state.matched_tables(), vec![0, 1]);
    assert_eq!(*state.matched_storage_ids(), vec![0, 1, 3]);
}

#[test]
fn dense_state_lists_tables() {
    let archetypes = world_archetypes();
    let state = QueryState::new(WORLD, read(0, StorageType::Table), QueryTerm::NoAccess, &archetypes);
    assert!(state.is_dense());
    assert_eq!(*state.matched_storage_ids(), vec![0, 1]);
}

#[test]
fn state_filters_without() {
    let archetypes = world_archetypes();
    let mut builder = QueryBuilder::new(WORLD, &read(0, StorageType::SparseSet), &QueryTerm::NoAccess);
    builder.without_id(ComponentId::new(1));
    let state = QueryState::from_builder(
        &builder,
        read(0, StorageType::SparseSet),
        QueryTerm::NoAccess,
        &ComponentIdSet::new(),
        &archetypes,
    );
    assert!(!state.is_dense());
    assert_eq!(state.mathced_archetypes(), vec![0, 3]);
}

#[test]
fn state_updates_with_new_archetypes() {
    let mut archetypes = world_archetypes();
    let mut state = QueryState::new(WORLD, read(1, StorageType::SparseSet), QueryTerm::NoAccess, &archetypes);
    assert_eq!(state.mathced_archetypes(), vec![1, 2]);
    archetypes.push(3, set(&[1, 2]));
    archetypes.push(4, set(&[2]));
    state.update_archetypes(WORLD, &archetypes);
    assert_eq!(state.mathced_archetypes(), vec![1, 2, 4]);
    assert_eq!(*state.matched_storage_ids(), vec![1, 2, 4]);
    // updating again changes nothing
    state.update_archetypes(WORLD, &archetypes);
    assert_eq!(*state.matched_storage_ids(), vec![1, 2, 4]);
}

#[test]
fn state_without_required_matches_all() {
    let archetypes = world_archetypes();
    let state = QueryState::new(WORLD, QueryTerm::NoAccess, QueryTerm::NoAccess, &archetypes);
    assert!(state.is_dense());
    assert_eq!(state.mathced_archetypes(), vec![0, 1, 2, 3]);
    assert!(state.matches_component_set(&set(&[7])));
}

#[test]
fn state_from_builder() {
    let archetypes = world_archetypes();
    let mut builder = QueryBuilder::new(WORLD, &QueryTerm::NoAccess, &QueryTerm::NoAccess);
    builder.ref_id(ComponentId::new(0)).without_id(ComponentId::new(2));
    let state = builder.build(QueryTerm::NoAccess, QueryTerm::NoAccess, &set(&[0, 1, 2]), &archetypes);
    assert!(state.is_dense());
    assert_eq!(state.mathced_archetypes(), vec![0, 1]);
    assert_eq!(*state.matched_storage_ids(), vec![0, 1]);
    assert_eq!(state.component_access(), builder.access());
    state.validate_world(WORLD);
}

#[test]
fn state_from_builder_checks_term_kinds() {
    // the data term requires C even though the builder's access does not
    let archetypes = world_archetypes();
    let mut builder = QueryBuilder::new(WORLD, &QueryTerm::NoAccess, &QueryTerm::NoAccess);
    builder.ref_id(ComponentId::new(0));
    let state = QueryState::from_builder(
        &builder,
        read(2, StorageType::SparseSet),
        QueryTerm::NoAccess,
        &set(&[0]),
        &archetypes,
    );
    // the sparse data term forces sparse iteration
    assert!(!state.is_dense());
    assert_eq!(state.mathced_archetypes(), vec![3]);
    assert!(state.matches_component_set(&set(&[0])));
}

#[test]
fn state_init_access_adds_to_set() {
    let archetypes = world_archetypes();
    let state = QueryState::new(WORLD, read(0, StorageType::SparseSet), QueryTerm::NoAccess, &archetypes);
    let mut set_of_accesses = FilteredAccessSet::new();
    assert!(set_of_accesses.get_conflicts_single(state.component_access()).is_empty());
    state.init_access(&mut set_of_accesses);
    assert!(set_of_accesses.combined_access().has_read(ComponentId::new(0)));
    state.validate_world(WORLD);
}

#[test]
fn state_join_intersects() {
    let archetypes = world_archetypes();
    let a = QueryState::new(WORLD, read(0, StorageType::SparseSet), QueryTerm::NoAccess, &archetypes);
    let b = QueryState::new(WORLD, write(1, StorageType::SparseSet), QueryTerm::NoAccess, &archetypes);
    let joined = a.join(WORLD, &b, read(0, StorageType::SparseSet));
    assert_eq!(joined.mathced_archetypes(), vec![1]);
    assert_eq!(joined.matched_tables(), vec![1]);
    assert_eq!(*joined.matched_storage_ids(), vec![1]);
    assert!(joined.component_access().access().has_write(ComponentId::new(1)));
    // a state whose data was made read-only brings no write
    let b_read_only = b.transmute(WORLD, read(1, StorageType::SparseSet));
    assert!(b_read_only.component_access().access().has_write(ComponentId::new(1)));
    let joined_ro = a.join_filtered(WORLD, &b_read_only, read(0, StorageType::SparseSet), QueryTerm::NoAccess);
    assert!(!joined_ro.component_access().access().has_write(ComponentId::new(1)));
    assert!(joined_ro.component_access().access().has_read(ComponentId::new(1)));
    assert!(joined_ro.component_access().access().has_read(ComponentId::new(0)));
}

#[test]
fn state_transmute_keeps_matches() {
    let archetypes = world_archetypes();
    let state = QueryState::new(WORLD, write(0, StorageType::Table), QueryTerm::NoAccess, &archetypes);
    assert!(state.is_dense());
    let t = state.transmute(WORLD, read(0, StorageType::Table));
    assert_eq!(t.mathced_archetypes(), state.mathced_archetypes());
    assert_eq!(*t.matched_storage_ids(), *state.matched_storage_ids());
    assert!(t.is_dense());
    // the mutable data of `state` keeps its write
    assert!(t.component_access().access().has_write(ComponentId::new(0)));
    // `t` has read-only data: transmuting it again drops the write
    let ro = t.transmute_filtered(WORLD, read(0, StorageType::Table), QueryTerm::With(ComponentId::new(0), StorageType::Table));
    assert!(!ro.component_access().access().has_write(ComponentId::new(0)));
    assert!(ro.component_access().access().has_read(ComponentId::new(0)));
}

#[test]
fn transmute_to_filtered_entity_ref() {
    let archetypes = world_archetypes();
    let state = QueryState::new(WORLD, write(0, StorageType::Table), QueryTerm::NoAccess, &archetypes);
    let t = state.transmute(WORLD, QueryTerm::FilteredEntityRef(kairos_ecs::access::Access::new()));
    assert!(t.component_access().access().has_write(ComponentId::new(0)));
    assert_eq!(t.mathced_archetypes(), vec![0, 1, 3]);
    let ro = t.transmute(WORLD, QueryTerm::NoAccess);
    assert!(!ro.component_access().access().has_write(ComponentId::new(0)));
}

#[test]
fn archetype_lookup() {
    let archetypes = world_archetypes();
    assert_eq!(archetypes.generation(), 4);
    let a = archetypes.get(3).unwrap();
    assert_eq!(a.id(), 3);
    assert_eq!(a.table_id(), 1);
    assert!(a.contains(ComponentId::new(2)));
    assert!(archetypes.get(4).is_none());
    assert_eq!(archetypes.component_archetypes(ComponentId::new(0)), vec![0, 1, 3]);
}
