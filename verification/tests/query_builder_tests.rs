use kairos_ecs::component::ComponentId;
use kairos_ecs::query_builder::QueryBuilder;
use kairos_ecs::query_state::WorldId;
use kairos_ecs::query_term::{QueryTerm, StorageType};

const WORLD: WorldId = WorldId(7);

fn empty_builder() -> QueryBuilder {
    QueryBuilder::new(WORLD, &QueryTerm::NoAccess, &QueryTerm::NoAccess)
}

fn with_ids(ids: &[usize]) -> Vec<usize> {
    ids.to_vec()
}

fn ones(set: &kairos_ecs::component_id_set::ComponentIdSet) -> Vec<usize> {
    set.iter().into_iter().map(|id| id.index()).collect()
}

#[test]
fn builder_with_without() {
    let mut builder = empty_builder();
    builder.with_id(ComponentId::new(0)).without_id(ComponentId::new(1));
    let access = builder.access();
    assert_eq!(access.filter_sets().len(), 1);
    assert_eq!(ones(&access.filter_sets()[0].with), with_ids(&[0]));
    assert_eq!(ones(&access.filter_sets()[0].without), with_ids(&[1]));
    assert!(!access.access().has_any_read());
}

#[test]
fn builder_with_matches_with_id() {
    let mut a = empty_builder();
    a.with(ComponentId::new(3)).without(ComponentId::new(4));
    let mut b = empty_builder();
    b.with_id(ComponentId::new(3)).without_id(ComponentId::new(4));
    assert_eq!(a.access(), b.access());
}

#[test]
fn builder_ref_and_mut() {
    let mut builder = empty_builder();
    builder.ref_id(ComponentId::new(0)).mut_id(ComponentId::new(1));
    let access = builder.access();
    assert!(access.access().has_read(ComponentId::new(0)));
    assert!(!access.access().has_write(ComponentId::new(0)));
    assert!(access.access().has_write(ComponentId::new(1)));
    assert_eq!(ones(access.required()), with_ids(&[0, 1]));
    assert_eq!(ones(&access.filter_sets()[0].with), with_ids(&[0, 1]));
}

#[test]
fn builder_or_makes_alternatives() {
    let mut builder = empty_builder();
    builder.ref_id(ComponentId::new(0));
    builder.or(|mut b| {
        b.with_id(ComponentId::new(1));
        b.with_id(ComponentId::new(2));
        b
    });
    let access = builder.access();
    // `&A` and `Or<(With<B>, With<C>)>`
    assert_eq!(access.filter_sets().len(), 2);
    assert_eq!(ones(&access.filter_sets()[0].with), with_ids(&[0, 1]));
    assert_eq!(ones(&access.filter_sets()[1].with), with_ids(&[0, 2]));
    assert_eq!(ones(access.required()), with_ids(&[0]));
}

#[test]
fn builder_or_with_and_group() {
    let mut builder = empty_builder();
    builder.or(|mut b| {
        b.and(|mut inner| {
            inner.with_id(ComponentId::new(1));
            inner.without_id(ComponentId::new(2));
            inner
        });
        b.with_id(ComponentId::new(3));
        b
    });
    let access = builder.access();
    assert_eq!(access.filter_sets().len(), 2);
    assert_eq!(ones(&access.filter_sets()[0].with), with_ids(&[1]));
    assert_eq!(ones(&access.filter_sets()[0].without), with_ids(&[2]));
    assert_eq!(ones(&access.filter_sets()[1].with), with_ids(&[3]));
}

#[test]
fn builder_optional_adds_only_access() {
    let mut builder = empty_builder();
    builder.optional(|mut b| {
        b.ref_id(ComponentId::new(5));
        b
    });
    let access = builder.access();
    assert!(access.access().has_read(ComponentId::new(5)));
    assert!(ones(access.required()).is_empty());
    assert_eq!(access.filter_sets().len(), 1);
    assert!(ones(&access.filter_sets()[0].with).is_empty());
}

#[test]
fn builder_new_merges_filter_access() {
    let data = QueryTerm::Read(ComponentId::new(0), StorageType::Table);
    let filter = QueryTerm::With(ComponentId::new(1), StorageType::Table);
    let builder = QueryBuilder::new(WORLD, &data, &filter);
    let access = builder.access();
    assert!(access.access().has_read(ComponentId::new(0)));
    assert!(!access.access().has_read(ComponentId::new(1)));
    assert_eq!(ones(&access.filter_sets()[0].with), with_ids(&[0, 1]));
    assert_eq!(ones(access.required()), with_ids(&[0]));
}

#[test]
fn builder_new_lets_filter_overlap_data() {
    // a filter on a component the data writes does not conflict with it
    let data = QueryTerm::Write(ComponentId::new(2), StorageType::Table);
    let filter = QueryTerm::With(ComponentId::new(2), StorageType::Table);
    let builder = QueryBuilder::new(WORLD, &data, &filter);
    assert!(builder.access().access().has_write(ComponentId::new(2)));
}

#[test]
fn builder_data_filter_and_transmute() {
    let mut builder = empty_builder();
    builder.data(&QueryTerm::Write(ComponentId::new(2), StorageType::Table));
    builder.filter(&QueryTerm::With(ComponentId::new(3), StorageType::SparseSet));
    builder.transmute(&QueryTerm::Read(ComponentId::new(4), StorageType::Table));
    let access = builder.access();
    assert!(access.access().has_write(ComponentId::new(2)));
    assert!(access.access().has_read(ComponentId::new(4)));
    assert_eq!(ones(&access.filter_sets()[0].with), with_ids(&[2, 3, 4]));
}

#[test]
fn builder_transmute_filtered_adds_both_terms() {
    let mut builder = empty_builder();
    builder.transmute_filtered(
        &QueryTerm::EntityRef,
        &QueryTerm::With(ComponentId::new(6), StorageType::Table),
    );
    let access = builder.access();
    assert!(access.access().has_read_all());
    assert!(!access.access().has_any_write());
    assert_eq!(ones(&access.filter_sets()[0].with), with_ids(&[6]));
}

#[test]
fn builder_is_dense_needs_table_components() {
    let mut tables = kairos_ecs::component_id_set::ComponentIdSet::new();
    tables.insert(ComponentId::new(0));
    tables.insert(ComponentId::new(1));
    let none = QueryTerm::NoAccess;
    let mut builder = empty_builder();
    assert!(builder.is_dense(&none, &none, &tables));
    builder.ref_id(ComponentId::new(0)).without_id(ComponentId::new(1));
    assert!(builder.is_dense(&none, &none, &tables));
    builder.with_id(ComponentId::new(2));
    assert!(!builder.is_dense(&none, &none, &tables));
}

#[test]
fn builder_is_dense_follows_its_terms() {
    let no_tables = kairos_ecs::component_id_set::ComponentIdSet::new();
    let mut builder = empty_builder();
    builder.data(&QueryTerm::EntityRef);
    // `EntityRef` allows dense iteration whatever it reads
    assert!(builder.is_dense(&QueryTerm::EntityRef, &QueryTerm::NoAccess, &no_tables));
    let sparse = QueryTerm::Read(ComponentId::new(5), StorageType::SparseSet);
    assert!(!builder.is_dense(&sparse, &QueryTerm::NoAccess, &no_tables));
    // data added without a filter does not force sparse iteration
    let mut optional = empty_builder();
    optional.optional(|mut b| {
        b.ref_id(ComponentId::new(5));
        b
    });
    assert!(optional.is_dense(&QueryTerm::NoAccess, &QueryTerm::NoAccess, &no_tables));
}

#[test]
fn builder_keeps_its_world() {
    let mut builder = QueryBuilder::new(WorldId(3), &QueryTerm::NoAccess, &QueryTerm::NoAccess);
    assert_eq!(builder.world(), WorldId(3));
    builder
        .with_id(ComponentId::new(0))
        .or(|b| {
            // the group's builder is made for the same world
            assert_eq!(b.world(), WorldId(3));
            let mut b = b;
            b.with_id(ComponentId::new(1));
            b
        });
    assert_eq!(builder.world(), WorldId(3));
}
