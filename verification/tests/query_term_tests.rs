use kairos_ecs::access::{Access, FilteredAccess};
use kairos_ecs::component::ComponentId;
use kairos_ecs::component_id_set::ComponentIdSet;
use kairos_ecs::query_state::{Archetypes, QueryState, WorldId};
use kairos_ecs::query_term::{QueryTerm, StorageType};

const WORLD: WorldId = WorldId(3);

fn id(i: usize) -> ComponentId {
    ComponentId::new(i)
}

fn set(ids: &[usize]) -> ComponentIdSet {
    let mut s = ComponentIdSet::new();
    for i in ids {
        s.insert(id(*i));
    }
    s
}

#[test]
fn read_term_adds_read_and_with() {
    let mut access = FilteredAccess::default();
    let term = QueryTerm::Read(id(1), StorageType::Table);
    assert!(!term.conflicts(&access));
    term.update_component_access(&mut access);
    assert!(access.access().has_read(id(1)));
    assert!(!access.access().has_write(id(1)));
    assert!(access.required().contains(id(1)));
    assert!(access.filter_sets()[0].with.contains(id(1)));
}

#[test]
fn write_term_adds_write() {
    let mut access = FilteredAccess::default();
    QueryTerm::Write(id(2), StorageType::Table).update_component_access(&mut access);
    assert!(access.access().has_write(id(2)));
    assert!(access.access().has_read(id(2)));
    assert!(access.required().contains(id(2)));
}

#[test]
fn shared_access_after_exclusive_conflicts() {
    let mut access = FilteredAccess::default();
    QueryTerm::Write(id(2), StorageType::Table).update_component_access(&mut access);
    assert!(QueryTerm::Read(id(2), StorageType::Table).conflicts(&access));
    assert!(QueryTerm::Write(id(2), StorageType::Table).conflicts(&access));
    assert!(!QueryTerm::Read(id(3), StorageType::Table).conflicts(&access));
    assert!(QueryTerm::EntityRef.conflicts(&access));
    assert!(QueryTerm::EntityMut.conflicts(&access));
    assert!(!QueryTerm::NoAccess.conflicts(&access));
}

#[test]
fn exclusive_access_after_shared_conflicts() {
    let mut access = FilteredAccess::default();
    QueryTerm::Read(id(4), StorageType::Table).update_component_access(&mut access);
    assert!(QueryTerm::Write(id(4), StorageType::Table).conflicts(&access));
    assert!(!QueryTerm::Read(id(4), StorageType::Table).conflicts(&access));
    assert!(!QueryTerm::EntityRef.conflicts(&access));
    assert!(QueryTerm::EntityMut.conflicts(&access));
}

#[test]
fn entity_ref_reads_everything() {
    let mut access = FilteredAccess::default();
    QueryTerm::EntityRef.update_component_access(&mut access);
    assert!(access.access().has_read_all());
    assert!(!access.access().has_any_write());
    assert!(QueryTerm::Write(id(0), StorageType::Table).conflicts(&access));
}

#[test]
fn entity_mut_writes_everything() {
    let mut access = FilteredAccess::default();
    QueryTerm::EntityMut.update_component_access(&mut access);
    assert!(access.access().has_write_all());
    assert!(QueryTerm::Read(id(9), StorageType::SparseSet).conflicts(&access));
}

#[test]
fn filtered_entity_terms_join_their_access() {
    let mut state = Access::new();
    state.add_read(id(5));
    let term = QueryTerm::FilteredEntityRef(state);
    let mut access = FilteredAccess::default();
    assert!(!term.conflicts(&access));
    term.update_component_access(&mut access);
    assert!(access.access().has_read(id(5)));
    assert!(!access.access().has_any_write());

    let mut written = Access::new();
    written.add_write(id(5));
    let other = QueryTerm::FilteredEntityMut(written);
    assert!(other.conflicts(&access));
    let mut elsewhere = Access::new();
    elsewhere.add_write(id(6));
    let third = QueryTerm::EntityMutExcept(elsewhere);
    assert!(!third.conflicts(&access));
    third.update_component_access(&mut access);
    assert!(access.access().has_write(id(6)));
}

#[test]
fn with_filter_adds_only_a_with() {
    let mut access = FilteredAccess::default();
    QueryTerm::With(id(7), StorageType::SparseSet).update_component_access(&mut access);
    assert!(!access.access().has_any_read());
    assert!(!access.required().contains(id(7)));
    assert!(access.filter_sets()[0].with.contains(id(7)));
}

#[test]
fn terms_match_component_sets() {
    let components = set(&[1, 2]);
    assert!(QueryTerm::Read(id(1), StorageType::Table).matches_component_set(&components));
    assert!(!QueryTerm::Write(id(3), StorageType::Table).matches_component_set(&components));
    assert!(!QueryTerm::With(id(0), StorageType::Table).matches_component_set(&components));
    assert!(QueryTerm::EntityRef.matches_component_set(&components));
    assert!(QueryTerm::NoAccess.matches_component_set(&ComponentIdSet::new()));
}

#[test]
fn terms_read_only_and_dense() {
    assert!(QueryTerm::Read(id(1), StorageType::Table).is_read_only());
    assert!(!QueryTerm::Write(id(1), StorageType::Table).is_read_only());
    assert!(!QueryTerm::EntityMut.is_read_only());
    assert!(QueryTerm::EntityRef.is_read_only());
    assert!(QueryTerm::Read(id(1), StorageType::Table).is_dense());
    assert!(!QueryTerm::Read(id(1), StorageType::SparseSet).is_dense());
    assert!(!QueryTerm::With(id(1), StorageType::SparseSet).is_dense());
    assert!(QueryTerm::EntityMut.is_dense());
}

#[test]
fn state_from_terms_merges_filter_access() {
    let data = QueryTerm::Read(id(0), StorageType::Table);
    let filter = QueryTerm::With(id(1), StorageType::SparseSet);
    let mut state = QueryState::from_states_uninitialized(WORLD, data, filter);
    assert!(!state.is_dense());
    let access = state.component_access();
    assert!(access.access().has_read(id(0)));
    assert!(access.required().contains(id(0)));
    assert!(access.filter_sets()[0].with.contains(id(1)));
    let mut archetypes = Archetypes::new();
    archetypes.push(0, set(&[0]));
    archetypes.push(1, set(&[0, 1]));
    archetypes.push(2, set(&[1]));
    state.update_archetypes(WORLD, &archetypes);
    assert_eq!(state.mathced_archetypes(), vec![1]);
}

#[test]
fn filter_may_access_what_the_data_writes() {
    let data = QueryTerm::Write(id(0), StorageType::Table);
    let filter = QueryTerm::With(id(0), StorageType::Table);
    let state = QueryState::from_states_uninitialized(WORLD, data, filter);
    assert!(state.is_dense());
    assert!(state.component_access().access().has_write(id(0)));
}

#[test]
fn entity_except_terms_leave_out_their_components() {
    let ref_except = QueryTerm::entity_ref_except(&[id(1), id(3)]);
    let mut access = FilteredAccess::default();
    ref_except.update_component_access(&mut access);
    assert!(access.access().has_read(id(0)));
    assert!(!access.access().has_read(id(1)));
    assert!(!access.access().has_read(id(3)));
    assert!(!access.access().has_any_write());
    // a write of an excluded component does not conflict
    assert!(!QueryTerm::Write(id(1), StorageType::Table).conflicts(&access));
    assert!(QueryTerm::Write(id(2), StorageType::Table).conflicts(&access));

    let mut_except = QueryTerm::entity_mut_except(&[id(2)]);
    let mut other = FilteredAccess::default();
    mut_except.update_component_access(&mut other);
    assert!(other.access().has_write(id(0)));
    assert!(!other.access().has_read(id(2)));
    assert!(!mut_except.is_read_only());
    assert!(ref_except.is_read_only());
}
