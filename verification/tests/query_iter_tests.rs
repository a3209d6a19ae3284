use kairos_ecs::component::ComponentId;
use kairos_ecs::component_id_set::ComponentIdSet;
use kairos_ecs::entity::Entity;
use kairos_ecs::query_iter::{fold_rows, QueryIterationCursor};
use kairos_ecs::query_state::{Archetypes, QueryState, WorldId};
use kairos_ecs::query_term::{QueryTerm, StorageType};

fn set(ids: &[usize]) -> ComponentIdSet {
    let mut s = ComponentIdSet::new();
    for id in ids {
        s.insert(ComponentId::new(*id));
    }
    s
}

fn e(i: u32) -> Entity {
    Entity::from_index_and_generation(i, 0)
}

/// Archetype 0 = {A} in table 0, archetype 1 = {A, B} in table 1 (empty),
/// archetype 2 = {A} in table 0 as well.
/// Every row walked is kept (three rows in both walks of `setup`).
fn all_kept() -> Vec<bool> {
    vec![true; 3]
}

fn setup() -> (Archetypes, Vec<Vec<(Entity, u32)>>, Vec<Vec<(Entity, u32)>>) {
    let mut archetypes = Archetypes::new();
    archetypes.push(0, set(&[0]));
    archetypes.push(1, set(&[0, 1]));
    archetypes.push(0, set(&[0]));
    let tables = vec![vec![(e(1), 0), (e(2), 1), (e(3), 2)], vec![]];
    let archetype_rows = vec![vec![(e(1), 0), (e(3), 2)], vec![], vec![(e(2), 1)]];
    (archetypes, tables, archetype_rows)
}

#[test]
fn cursor_walks_archetypes() {
    let (archetypes, tables, archetype_rows) = setup();
    let state = QueryState::new(WorldId(0), QueryTerm::Read(ComponentId::new(0), StorageType::SparseSet), QueryTerm::NoAccess, &archetypes);
    let mut cursor = QueryIterationCursor::init(&state);
    assert_eq!(cursor.max_remaining(&tables, &archetype_rows), 3);
    assert_eq!(cursor.peek_last(&tables, &archetype_rows), None);
    assert_eq!(cursor.next(&tables, &archetype_rows, &all_kept()), Some((e(1), 0)));
    assert_eq!(cursor.peek_last(&tables, &archetype_rows), Some((e(1), 0)));
    assert_eq!(cursor.next(&tables, &archetype_rows, &all_kept()), Some((e(3), 2)));
    assert_eq!(cursor.max_remaining(&tables, &archetype_rows), 1);
    // the empty archetype is skipped
    assert_eq!(cursor.next(&tables, &archetype_rows, &all_kept()), Some((e(2), 1)));
    assert_eq!(cursor.next(&tables, &archetype_rows, &all_kept()), None);
    assert_eq!(cursor.next(&tables, &archetype_rows, &all_kept()), None);
    assert_eq!(cursor.peek_last(&tables, &archetype_rows), Some((e(2), 1)));
    assert_eq!(cursor.max_remaining(&tables, &archetype_rows), 0);
}

#[test]
fn cursor_walks_tables_when_dense() {
    let (archetypes, tables, archetype_rows) = setup();
    let state = QueryState::new(WorldId(0), QueryTerm::Read(ComponentId::new(0), StorageType::Table), QueryTerm::NoAccess, &archetypes);
    let mut cursor = QueryIterationCursor::init(&state);
    let mut rows = Vec::new();
    while let Some(row) = cursor.next(&tables, &archetype_rows, &all_kept()) {
        rows.push(row);
    }
    assert_eq!(rows, vec![(e(1), 0), (e(2), 1), (e(3), 2)]);
}

#[test]
fn empty_cursor_hands_out_nothing() {
    let (_, tables, archetype_rows) = setup();
    let mut cursor = QueryIterationCursor::init_empty(false);
    assert_eq!(cursor.next(&tables, &archetype_rows, &vec![]), None);
    assert_eq!(cursor.max_remaining(&tables, &archetype_rows), 0);
}

#[test]
fn reborrowed_cursor_advances_separately() {
    let (archetypes, tables, archetype_rows) = setup();
    let state = QueryState::new(WorldId(0), QueryTerm::Read(ComponentId::new(0), StorageType::SparseSet), QueryTerm::NoAccess, &archetypes);
    let mut cursor = QueryIterationCursor::init(&state);
    assert_eq!(cursor.next(&tables, &archetype_rows, &all_kept()), Some((e(1), 0)));
    let mut copy = cursor.reborrow();
    assert_eq!(copy.next(&tables, &archetype_rows, &all_kept()), Some((e(3), 2)));
    assert_eq!(copy.next(&tables, &archetype_rows, &all_kept()), Some((e(2), 1)));
    assert_eq!(copy.next(&tables, &archetype_rows, &all_kept()), None);
    assert_eq!(cursor.max_remaining(&tables, &archetype_rows), 2);
    assert_eq!(cursor.next(&tables, &archetype_rows, &all_kept()), Some((e(3), 2)));
}

#[test]
fn size_hint_bounds_remaining_rows() {
    let (archetypes, tables, archetype_rows) = setup();
    let state = QueryState::new(WorldId(0), QueryTerm::Read(ComponentId::new(0), StorageType::Table), QueryTerm::NoAccess, &archetypes);
    let mut cursor = QueryIterationCursor::init(&state);
    assert_eq!(cursor.size_hint(&tables, &archetype_rows, true), (3, Some(3)));
    assert_eq!(cursor.size_hint(&tables, &archetype_rows, false), (0, Some(3)));
    cursor.next(&tables, &archetype_rows, &all_kept());
    assert_eq!(cursor.size_hint(&tables, &archetype_rows, true), (2, Some(2)));
}

#[test]
fn cursor_skips_rejected_rows() {
    let (archetypes, tables, archetype_rows) = setup();
    let state = QueryState::new(WorldId(0), QueryTerm::Read(ComponentId::new(0), StorageType::SparseSet), QueryTerm::NoAccess, &archetypes);
    // walk order: (e1, 0), (e3, 2), (e2, 1); the middle row is rejected
    let keep = vec![true, false, true];
    let mut cursor = QueryIterationCursor::init(&state);
    assert_eq!(cursor.next(&tables, &archetype_rows, &keep), Some((e(1), 0)));
    assert_eq!(cursor.next(&tables, &archetype_rows, &keep), Some((e(2), 1)));
    assert_eq!(cursor.max_remaining(&tables, &archetype_rows), 0);
    assert_eq!(cursor.next(&tables, &archetype_rows, &keep), None);
}

#[test]
fn cursor_with_no_kept_row_ends_at_once() {
    let (archetypes, tables, archetype_rows) = setup();
    let state = QueryState::new(WorldId(0), QueryTerm::Read(ComponentId::new(0), StorageType::Table), QueryTerm::NoAccess, &archetypes);
    let keep = vec![false; 3];
    let mut cursor = QueryIterationCursor::init(&state);
    assert_eq!(cursor.next(&tables, &archetype_rows, &keep), None);
    assert_eq!(cursor.max_remaining(&tables, &archetype_rows), 0);
}

#[test]
fn fold_rows_keeps_accepted_rows_in_range() {
    let rows = vec![(e(1), 0), (e(2), 1), (e(3), 2), (e(4), 3)];
    let keep = vec![true, false, true, true];
    assert_eq!(fold_rows(&rows, 1, 3, &keep), vec![(e(3), 2)]);
    assert_eq!(fold_rows(&rows, 0, 4, &keep), vec![(e(1), 0), (e(3), 2), (e(4), 3)]);
    assert_eq!(fold_rows(&rows, 2, 2, &keep), vec![]);
}
