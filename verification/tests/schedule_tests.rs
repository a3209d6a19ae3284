use kairos_ecs::component::ComponentId;
use kairos_ecs::node::SystemKey;
use kairos_ecs::schedule::{InternedScheduleLabel, Schedule, Schedules, SystemTypeId};

const UPDATE: InternedScheduleLabel = InternedScheduleLabel(10);
const RENDER: InternedScheduleLabel = InternedScheduleLabel(20);

fn schedule_with(label: InternedScheduleLabel, n: u64) -> Schedule {
    let mut schedule = Schedule::new(label);
    for i in 0..n {
        schedule.add_system(SystemKey(i + 1), SystemTypeId(100 + i));
    }
    schedule
}

#[test]
fn schedules_insert_returns_previous() {
    let mut schedules = Schedules::new();
    assert!(!schedules.contains(UPDATE));
    assert!(schedules.insert(schedule_with(UPDATE, 1)).is_none());
    assert!(schedules.contains(UPDATE));
    let previous = schedules.insert(schedule_with(UPDATE, 3)).expect("a schedule was stored");
    assert_eq!(previous.systems_len(), 1);
    assert_eq!(schedules.get(UPDATE).unwrap().systems_len(), 3);
    assert!(schedules.get(RENDER).is_none());
}

#[test]
fn schedules_remove_and_remove_entry() {
    let mut schedules = Schedules::default();
    schedules.insert(schedule_with(UPDATE, 2));
    schedules.insert(schedule_with(RENDER, 1));
    let removed = schedules.remove(UPDATE).unwrap();
    assert_eq!(removed.label(), UPDATE);
    assert!(schedules.remove(UPDATE).is_none());
    let (label, schedule) = schedules.remove_entry(RENDER).unwrap();
    assert_eq!(label, RENDER);
    assert_eq!(schedule.systems_len(), 1);
    assert!(schedules.remove_entry(RENDER).is_none());
    assert!(schedules.get_temporarily_removed().is_empty());
}

#[test]
fn schedules_remove_temporarily_then_reinsert() {
    let mut schedules = Schedules::new();
    schedules.insert(schedule_with(UPDATE, 2));
    let taken = schedules.remove_temporarily(UPDATE).unwrap();
    assert!(!schedules.contains(UPDATE));
    assert_eq!(schedules.get_temporarily_removed(), vec![UPDATE]);
    assert!(schedules.get_empty_labels().is_empty());
    assert!(schedules.reinsert(taken).is_none());
    assert_eq!(schedules.get(UPDATE).unwrap().systems_len(), 2);
    assert!(schedules.get_temporarily_removed().is_empty());
}

#[test]
fn schedules_remove_temporarily_missing_marks_empty() {
    let mut schedules = Schedules::new();
    assert!(schedules.remove_temporarily(RENDER).is_none());
    assert!(schedules.remove_temporarily(RENDER).is_none());
    assert_eq!(schedules.get_empty_labels(), vec![RENDER]);
    assert!(schedules.get_temporarily_removed().is_empty());
    schedules.insert(schedule_with(RENDER, 1));
    assert!(schedules.remove_temporarily(RENDER).is_some());
    assert!(schedules.get_empty_labels().is_empty());
    assert_eq!(schedules.get_temporarily_removed(), vec![RENDER]);
}

#[test]
fn schedules_entry_creates_and_get_mut_changes() {
    let mut schedules = Schedules::new();
    {
        let schedule = schedules.entry(UPDATE);
        assert_eq!(schedule.label(), UPDATE);
        assert_eq!(schedule.systems_len(), 0);
        schedule.add_system(SystemKey(7), SystemTypeId(70));
    }
    assert_eq!(schedules.entry(UPDATE).systems_len(), 1);
    schedules
        .get_mut(UPDATE)
        .unwrap()
        .add_system(SystemKey(8), SystemTypeId(80));
    assert_eq!(schedules.get(UPDATE).unwrap().system_ids(), &vec![SystemKey(7), SystemKey(8)]);
    assert!(schedules.get_mut(RENDER).is_none());
}

#[test]
fn schedules_keep_ignored_ambiguities() {
    let mut schedules = Schedules::new();
    assert!(schedules.ingnored_scheduling_ambiguities.is_clear());
    schedules.ingnored_scheduling_ambiguities.insert(ComponentId::new(3));
    schedules.insert(schedule_with(UPDATE, 1));
    schedules.remove_temporarily(UPDATE);
    assert!(schedules.ingnored_scheduling_ambiguities.contains(ComponentId::new(3)));
}
