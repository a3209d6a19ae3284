use kairos_ecs::change_detection::{Tick, MAX_CHANGE_AGE};
use kairos_ecs::component::ComponentId;
use kairos_ecs::entity::Entity;
use kairos_ecs::query_error::QueryAccessError;
use kairos_ecs::resource::ResourceEntities;
use kairos_ecs::schedule_settings::{LogLevel, ScheduleBuildSettings};
use kairos_ecs::spawn_details::SpawnDetails;
use kairos_ecs::stepping::NotReady;
use kairos_ecs::observer::observer_should_run;

#[test]
fn build_settings_defaults() {
    let s = ScheduleBuildSettings::new();
    assert_eq!(s.ambiguity_detection, LogLevel::Ignore);
    assert_eq!(s.hierarchy_detection, LogLevel::Warn);
    assert!(s.auto_insert_apply_deferred);
    assert!(s.use_shortnames);
    assert!(s.report_sets);
    assert_eq!(ScheduleBuildSettings::default(), s);
}

#[test]
fn query_access_error_messages() {
    assert_eq!(QueryAccessError::EntityDoesNotMatch.message(), "Entity does not match Q");
    assert!(QueryAccessError::ComponentNotRegistered
        .message()
        .starts_with("At least one component in Q was not registered in world."));
}

#[test]
fn tick_newer_than() {
    let last_run = Tick::new(10);
    let this_run = Tick::new(20);
    assert!(Tick::new(15).is_newer_than(last_run, this_run));
    assert!(!Tick::new(5).is_newer_than(last_run, this_run));
    assert!(!Tick::new(10).is_newer_than(last_run, this_run));
    // wrapping clock
    let last_run = Tick::new(u32::MAX - 5);
    let this_run = Tick::new(4);
    assert!(Tick::new(1).is_newer_than(last_run, this_run));
    assert!(!Tick::new(u32::MAX - 10).is_newer_than(last_run, this_run));
    assert_eq!(Tick::new(3).relative_to(Tick::new(5)).get(), u32::MAX - 1);
    let mut t = Tick::new(1);
    t.set(MAX_CHANGE_AGE);
    assert_eq!(t.get(), MAX_CHANGE_AGE);
}

#[test]
fn tick_ages_are_capped() {
    // both ages are beyond the maximum change age, so neither is newer
    let this_run = Tick::new(u32::MAX);
    assert!(!Tick::new(1).is_newer_than(Tick::new(0), this_run));
}

#[test]
fn spawn_details_ticks() {
    let d = SpawnDetails::new(Tick::new(15), Tick::new(10), Tick::new(20));
    assert!(d.is_spawned());
    assert!(!d.is_spawned_after(Tick::new(16)));
    assert!(d.is_spawned_after(Tick::new(12)));
    assert_eq!(d.spawn_tick(), Tick::new(15));
    let old = SpawnDetails::new(Tick::new(5), Tick::new(10), Tick::new(20));
    assert!(!old.is_spawned());
}

#[test]
fn resource_entities_cache() {
    let mut cache = ResourceEntities::default();
    assert!(cache.iter().is_empty());
    let a = Entity::from_index_and_generation(1, 0);
    let b = Entity::from_index_and_generation(2, 0);
    cache.insert(ComponentId::new(7), a);
    cache.insert(ComponentId::new(3), b);
    assert_eq!(cache.get(ComponentId::new(7)), Some(a));
    assert_eq!(cache.get(ComponentId::new(4)), None);
    assert_eq!(cache.get(ComponentId::new(100)), None);
    assert_eq!(cache.iter(), vec![(ComponentId::new(3), b), (ComponentId::new(7), a)]);
    cache.remove(ComponentId::new(3));
    assert_eq!(cache.iter(), vec![(ComponentId::new(7), a)]);
    cache.remove(ComponentId::new(50));
    assert_eq!(cache.get(ComponentId::new(3)), None);
}

#[test]
fn not_ready_message() {
    assert_eq!(
        NotReady.message(),
        "not available until all configured schedules have been run; try again next frame"
    );
}

#[test]
fn observer_runs_once_per_trigger_when_conditions_hold() {
    assert_eq!(observer_should_run(3, 4, &vec![true, true]), (true, 4));
    assert_eq!(observer_should_run(4, 4, &vec![true]), (false, 4));
    assert_eq!(observer_should_run(3, 4, &vec![true, false]), (false, 4));
    assert_eq!(observer_should_run(0, 1, &vec![]), (true, 1));
}
