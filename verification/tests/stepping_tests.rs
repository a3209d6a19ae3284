use fixedbitset::FixedBitSet;
use kairos_ecs::node::{NodeId, SystemKey};
use kairos_ecs::schedule::{InternedScheduleLabel, Schedule, SystemTypeId};
use kairos_ecs::stepping::Stepping;

const TEST_SCHEDULE: InternedScheduleLabel = InternedScheduleLabel(1);
const TEST_SCHEDULE_A: InternedScheduleLabel = InternedScheduleLabel(2);
const TEST_SCHEDULE_B: InternedScheduleLabel = InternedScheduleLabel(3);
const TEST_SCHEDULE_C: InternedScheduleLabel = InternedScheduleLabel(4);
const TEST_SCHEDULE_D: InternedScheduleLabel = InternedScheduleLabel(5);

const FIRST_SYSTEM: SystemTypeId = SystemTypeId(101);
const SECOND_SYSTEM: SystemTypeId = SystemTypeId(102);
const THIRD_SYSTEM: SystemTypeId = SystemTypeId(103);

/// A schedule running the given systems in order, with keys 1, 2, ...
fn schedule_of(label: InternedScheduleLabel, systems: &[SystemTypeId]) -> Schedule {
    let mut schedule = Schedule::new(label);
    for (i, system) in systems.iter().enumerate() {
        schedule.add_system(SystemKey(i as u64 + 1), *system);
    }
    schedule
}

fn setup() -> Schedule {
    schedule_of(TEST_SCHEDULE, &[FIRST_SYSTEM, SECOND_SYSTEM])
}

/// Checks that exactly the systems of the given types run with this skip list.
fn assert_systems_run(schedule: &Schedule, skipped: Option<FixedBitSet>, systems: &[SystemTypeId]) {
    let types = schedule.system_types();
    let mut expected = FixedBitSet::with_capacity(types.len());
    for system in systems {
        for (i, type_id) in types.iter().enumerate() {
            if type_id == system {
                expected.insert(i);
            }
        }
    }
    // flip the run list to get our skip list
    expected.toggle_range(..);
    let actual = match skipped {
        None => FixedBitSet::with_capacity(types.len()),
        Some(b) => b,
    };
    assert_eq!(actual, expected);
}

/// Advances to the next frame, and checks which systems of the schedule run.
fn assert_schedule_runs(schedule: &Schedule, stepping: &mut Stepping, systems: &[SystemTypeId]) {
    stepping.next_frame();
    let skipped = stepping.skipped_systems(schedule);
    assert_systems_run(schedule, skipped, systems);
}

#[test]
fn stepping_disabled() {
    let schedule = setup();
    let mut stepping = Stepping::new();
    stepping.add_schedule(TEST_SCHEDULE).disable().next_frame();
    assert!(stepping.skipped_systems(&schedule).is_none());
    assert!(stepping.cursor().is_none());
}

#[test]
fn unknown_schedule() {
    let schedule = setup();
    let mut stepping = Stepping::new();
    stepping.enable().next_frame();
    assert!(stepping.skipped_systems(&schedule).is_none());
}

#[test]
fn disabled_always_run() {
    let schedule = setup();
    let mut stepping = Stepping::new();
    stepping
        .add_schedule(TEST_SCHEDULE)
        .disable()
        .always_run(TEST_SCHEDULE, FIRST_SYSTEM);
    assert_schedule_runs(&schedule, &mut stepping, &[FIRST_SYSTEM, SECOND_SYSTEM]);
}

#[test]
fn waiting_always_run() {
    let schedule = setup();
    let mut stepping = Stepping::new();
    stepping
        .add_schedule(TEST_SCHEDULE)
        .enable()
        .always_run(TEST_SCHEDULE, FIRST_SYSTEM);
    assert_schedule_runs(&schedule, &mut stepping, &[FIRST_SYSTEM]);
}

#[test]
fn step_always_run() {
    let schedule = setup();
    let mut stepping = Stepping::new();
    stepping
        .add_schedule(TEST_SCHEDULE)
        .enable()
        .always_run(TEST_SCHEDULE, FIRST_SYSTEM)
        .step_frame();
    assert_schedule_runs(&schedule, &mut stepping, &[FIRST_SYSTEM, SECOND_SYSTEM]);
}

#[test]
fn continue_always_run() {
    let schedule = setup();
    let mut stepping = Stepping::new();
    stepping
        .add_schedule(TEST_SCHEDULE)
        .enable()
        .always_run(TEST_SCHEDULE, FIRST_SYSTEM)
        .continue_frame();
    assert_schedule_runs(&schedule, &mut stepping, &[FIRST_SYSTEM, SECOND_SYSTEM]);
}

#[test]
fn disabled_never_run() {
    let schedule = setup();
    let mut stepping = Stepping::new();
    stepping
        .add_schedule(TEST_SCHEDULE)
        .never_run(TEST_SCHEDULE, FIRST_SYSTEM)
        .disable();
    assert_schedule_runs(&schedule, &mut stepping, &[FIRST_SYSTEM, SECOND_SYSTEM]);
}

#[test]
fn waiting_never_run() {
    let schedule = setup();
    let mut stepping = Stepping::new();
    stepping
        .add_schedule(TEST_SCHEDULE)
        .enable()
        .never_run(TEST_SCHEDULE, FIRST_SYSTEM);
    assert_schedule_runs(&schedule, &mut stepping, &[]);
}

#[test]
fn step_never_run() {
    let schedule = setup();
    let mut stepping = Stepping::new();
    stepping
        .add_schedule(TEST_SCHEDULE)
        .enable()
        .never_run(TEST_SCHEDULE, FIRST_SYSTEM)
        .step_frame();
    assert_schedule_runs(&schedule, &mut stepping, &[SECOND_SYSTEM]);
}

#[test]
fn continue_never_run() {
    let schedule = setup();
    let mut stepping = Stepping::new();
    stepping
        .add_schedule(TEST_SCHEDULE)
        .enable()
        .never_run(TEST_SCHEDULE, FIRST_SYSTEM)
        .continue_frame();
    assert_schedule_runs(&schedule, &mut stepping, &[SECOND_SYSTEM]);
}

#[test]
fn disabled_breakpoint() {
    let schedule = setup();
    let mut stepping = Stepping::new();
    stepping
        .add_schedule(TEST_SCHEDULE)
        .disable()
        .set_breakpoint(TEST_SCHEDULE, SECOND_SYSTEM);
    assert_schedule_runs(&schedule, &mut stepping, &[FIRST_SYSTEM, SECOND_SYSTEM]);
}

#[test]
fn waiting_breakpoint() {
    let schedule = setup();
    let mut stepping = Stepping::new();
    stepping
        .add_schedule(TEST_SCHEDULE)
        .enable()
        .set_breakpoint(TEST_SCHEDULE, SECOND_SYSTEM);
    assert_schedule_runs(&schedule, &mut stepping, &[]);
}

#[test]
fn step_breakpoint() {
    let schedule = setup();
    let mut stepping = Stepping::new();
    stepping
        .add_schedule(TEST_SCHEDULE)
        .enable()
        .set_breakpoint(TEST_SCHEDULE, SECOND_SYSTEM)
        .step_frame();

    // since stepping stops at every system, breakpoints are ignored during
    // stepping
    assert_schedule_runs(&schedule, &mut stepping, &[FIRST_SYSTEM]);
    stepping.step_frame();
    assert_schedule_runs(&schedule, &mut stepping, &[SECOND_SYSTEM]);

    // let's go again to verify that we wrap back around to the start of
    // the frame
    stepping.step_frame();
    assert_schedule_runs(&schedule, &mut stepping, &[FIRST_SYSTEM]);

    // should be back in a waiting state now that it ran first_system
    assert_schedule_runs(&schedule, &mut stepping, &[]);
}

#[test]
fn continue_breakpoint() {
    let schedule = setup();
    let mut stepping = Stepping::new();
    stepping
        .add_schedule(TEST_SCHEDULE)
        .enable()
        .set_breakpoint(TEST_SCHEDULE, SECOND_SYSTEM)
        .continue_frame();

    assert_schedule_runs(&schedule, &mut stepping, &[FIRST_SYSTEM]);
    stepping.continue_frame();
    assert_schedule_runs(&schedule, &mut stepping, &[SECOND_SYSTEM]);
    stepping.continue_frame();
    assert_schedule_runs(&schedule, &mut stepping, &[FIRST_SYSTEM]);
}

/// regression test for issue encountered while writing `system_stepping`
/// example
#[test]
fn continue_step_continue_with_breakpoint() {
    let schedule = schedule_of(TEST_SCHEDULE, &[FIRST_SYSTEM, SECOND_SYSTEM, THIRD_SYSTEM]);
    let mut stepping = Stepping::new();
    stepping
        .add_schedule(TEST_SCHEDULE)
        .enable()
        .set_breakpoint(TEST_SCHEDULE, SECOND_SYSTEM);

    stepping.continue_frame();
    assert_schedule_runs(&schedule, &mut stepping, &[FIRST_SYSTEM]);

    stepping.step_frame();
    assert_schedule_runs(&schedule, &mut stepping, &[SECOND_SYSTEM]);

    stepping.continue_frame();
    assert_schedule_runs(&schedule, &mut stepping, &[THIRD_SYSTEM]);
}

#[test]
fn clear_breakpoint() {
    let schedule = setup();
    let mut stepping = Stepping::new();
    stepping
        .add_schedule(TEST_SCHEDULE)
        .enable()
        .set_breakpoint(TEST_SCHEDULE, SECOND_SYSTEM)
        .continue_frame();

    assert_schedule_runs(&schedule, &mut stepping, &[FIRST_SYSTEM]);
    stepping.continue_frame();
    assert_schedule_runs(&schedule, &mut stepping, &[SECOND_SYSTEM]);

    stepping.clear_breakpoint(TEST_SCHEDULE, SECOND_SYSTEM);
    stepping.continue_frame();
    assert_schedule_runs(&schedule, &mut stepping, &[FIRST_SYSTEM, SECOND_SYSTEM]);
}

#[test]
fn clear_system() {
    let schedule = setup();
    let mut stepping = Stepping::new();
    stepping
        .add_schedule(TEST_SCHEDULE)
        .enable()
        .never_run(TEST_SCHEDULE, SECOND_SYSTEM)
        .continue_frame();
    assert_schedule_runs(&schedule, &mut stepping, &[FIRST_SYSTEM]);

    stepping.clear_system(TEST_SCHEDULE, SECOND_SYSTEM);
    stepping.continue_frame();
    assert_schedule_runs(&schedule, &mut stepping, &[FIRST_SYSTEM, SECOND_SYSTEM]);
}

#[test]
fn clear_schedule() {
    let schedule = setup();
    let mut stepping = Stepping::new();
    stepping
        .add_schedule(TEST_SCHEDULE)
        .enable()
        .never_run(TEST_SCHEDULE, FIRST_SYSTEM)
        .never_run(TEST_SCHEDULE, SECOND_SYSTEM)
        .continue_frame();
    assert_schedule_runs(&schedule, &mut stepping, &[]);

    stepping.clear_schedule(TEST_SCHEDULE);
    stepping.continue_frame();
    assert_schedule_runs(&schedule, &mut stepping, &[FIRST_SYSTEM, SECOND_SYSTEM]);
}

/// Ensure that `clear_schedule` also clears any pending changes too.
#[test]
fn set_behavior_then_clear_schedule() {
    let schedule = setup();
    let mut stepping = Stepping::new();
    stepping
        .add_schedule(TEST_SCHEDULE)
        .enable()
        .continue_frame();
    assert_schedule_runs(&schedule, &mut stepping, &[FIRST_SYSTEM, SECOND_SYSTEM]);

    stepping.never_run(TEST_SCHEDULE, FIRST_SYSTEM);
    stepping.clear_schedule(TEST_SCHEDULE);
    stepping.continue_frame();
    assert_schedule_runs(&schedule, &mut stepping, &[FIRST_SYSTEM, SECOND_SYSTEM]);
}

/// Ensure that if they `clear_schedule` then make further changes to the
/// schedule, those changes after the clear are applied.
#[test]
fn clear_schedule_then_set_behavior() {
    let schedule = setup();
    let mut stepping = Stepping::new();
    stepping
        .add_schedule(TEST_SCHEDULE)
        .enable()
        .continue_frame();
    assert_schedule_runs(&schedule, &mut stepping, &[FIRST_SYSTEM, SECOND_SYSTEM]);

    stepping.clear_schedule(TEST_SCHEDULE);
    stepping.never_run(TEST_SCHEDULE, FIRST_SYSTEM);
    stepping.continue_frame();
    assert_schedule_runs(&schedule, &mut stepping, &[SECOND_SYSTEM]);
}

// Schedules can be called multiple times in a single render frame.  Ensure we
// only run steppable systems the first time the schedule is run
#[test]
fn multiple_calls_per_frame_continue() {
    let schedule = setup();
    let mut stepping = Stepping::new();
    stepping
        .add_schedule(TEST_SCHEDULE)
        .enable()
        .always_run(TEST_SCHEDULE, SECOND_SYSTEM)
        .continue_frame();

    // start a new frame, then run the schedule two times; first system
    // should only run on the first one
    stepping.next_frame();
    let skipped = stepping.skipped_systems(&schedule);
    assert_systems_run(&schedule, skipped, &[FIRST_SYSTEM, SECOND_SYSTEM]);
    let skipped = stepping.skipped_systems(&schedule);
    assert_systems_run(&schedule, skipped, &[SECOND_SYSTEM]);
}

#[test]
fn multiple_calls_per_frame_step() {
    let schedule = setup();
    let mut stepping = Stepping::new();
    stepping.add_schedule(TEST_SCHEDULE).enable().step_frame();

    // start a new frame, then run the schedule two times; first system
    // should only run on the first one
    stepping.next_frame();
    let skipped = stepping.skipped_systems(&schedule);
    assert_systems_run(&schedule, skipped, &[FIRST_SYSTEM]);
    let skipped = stepping.skipped_systems(&schedule);
    assert_systems_run(&schedule, skipped, &[]);
}

#[test]
fn step_duplicate_systems() {
    let schedule = schedule_of(TEST_SCHEDULE, &[FIRST_SYSTEM, FIRST_SYSTEM, SECOND_SYSTEM]);
    let mut stepping = Stepping::new();
    stepping.add_schedule(TEST_SCHEDULE).enable();

    // we're going to step three times, and each system in order should run
    // only once
    for system_index in 0..3 {
        // build the skip list by setting all bits, then clearing our the
        // one system that should run this step
        let mut expected = FixedBitSet::with_capacity(3);
        expected.set_range(.., true);
        expected.set(system_index, false);

        // step the frame and get the skip list
        stepping.step_frame();
        stepping.next_frame();
        let skip_list = stepping
            .skipped_systems(&schedule)
            .expect("TestSchedule has been added to Stepping");

        assert_eq!(skip_list, expected);
    }
}

#[test]
fn remove_schedule() {
    let schedule = setup();
    let mut stepping = Stepping::new();
    stepping.add_schedule(TEST_SCHEDULE).enable();

    // run the schedule once and verify all systems are skipped
    assert_schedule_runs(&schedule, &mut stepping, &[]);
    assert!(!stepping.schedules().unwrap().is_empty());

    // remove the test schedule
    stepping.remove_schedule(TEST_SCHEDULE);
    assert_schedule_runs(&schedule, &mut stepping, &[FIRST_SYSTEM, SECOND_SYSTEM]);
    assert!(stepping.schedules().unwrap().is_empty());
}

// verify that Stepping can construct an ordered list of schedules
#[test]
fn schedules() {
    let schedule_a = schedule_of(TEST_SCHEDULE_A, &[]);
    let schedule_b = schedule_of(TEST_SCHEDULE_B, &[]);
    let schedule_c = schedule_of(TEST_SCHEDULE_C, &[]);
    let schedule_d = schedule_of(TEST_SCHEDULE_D, &[]);

    // setup stepping and add all the schedules
    let mut stepping = Stepping::new();
    stepping
        .add_schedule(TEST_SCHEDULE_A)
        .add_schedule(TEST_SCHEDULE_B)
        .add_schedule(TEST_SCHEDULE_C)
        .add_schedule(TEST_SCHEDULE_D)
        .enable()
        .next_frame();

    assert!(stepping.schedules().is_err());

    stepping.skipped_systems(&schedule_b);
    assert!(stepping.schedules().is_err());
    stepping.skipped_systems(&schedule_a);
    assert!(stepping.schedules().is_err());
    stepping.skipped_systems(&schedule_c);
    assert!(stepping.schedules().is_err());

    // when we call the last schedule, Stepping should have enough data to
    // return an ordered list of schedules
    stepping.skipped_systems(&schedule_d);
    assert!(stepping.schedules().is_ok());

    assert_eq!(
        *stepping.schedules().unwrap(),
        vec![TEST_SCHEDULE_B, TEST_SCHEDULE_A, TEST_SCHEDULE_C, TEST_SCHEDULE_D]
    );
}

#[test]
fn verify_cursor() {
    // helper to build a cursor tuple for the supplied schedule
    fn cursor(schedule: &Schedule, index: usize) -> (InternedScheduleLabel, NodeId) {
        let key = schedule.system_ids()[index];
        (schedule.label(), NodeId::System(key))
    }

    // create two schedules with a number of systems in them; each schedule
    // numbers its systems from 1
    let schedule_a = schedule_of(
        TEST_SCHEDULE_A,
        &[SystemTypeId(201), SystemTypeId(202), SystemTypeId(203), SystemTypeId(204)],
    );
    let schedule_b = schedule_of(
        TEST_SCHEDULE_B,
        &[SystemTypeId(301), SystemTypeId(302), SystemTypeId(303), SystemTypeId(304)],
    );

    // setup stepping and add all schedules
    let mut stepping = Stepping::new();
    stepping
        .add_schedule(TEST_SCHEDULE_A)
        .add_schedule(TEST_SCHEDULE_B)
        .enable();

    assert!(stepping.cursor().is_none());

    // step the system nine times, and verify the cursor before & after
    // each step
    let mut cursors = Vec::new();
    for _ in 0..9 {
        stepping.step_frame().next_frame();
        cursors.push(stepping.cursor());
        stepping.skipped_systems(&schedule_a);
        stepping.skipped_systems(&schedule_b);
        cursors.push(stepping.cursor());
    }

    assert_eq!(
        cursors,
        vec![
            // before render frame        // after render frame
            None,                         Some(cursor(&schedule_a, 1)),
            Some(cursor(&schedule_a, 1)), Some(cursor(&schedule_a, 2)),
            Some(cursor(&schedule_a, 2)), Some(cursor(&schedule_a, 3)),
            Some(cursor(&schedule_a, 3)), Some(cursor(&schedule_b, 0)),
            Some(cursor(&schedule_b, 0)), Some(cursor(&schedule_b, 1)),
            Some(cursor(&schedule_b, 1)), Some(cursor(&schedule_b, 2)),
            Some(cursor(&schedule_b, 2)), Some(cursor(&schedule_b, 3)),
            Some(cursor(&schedule_b, 3)), None,
            Some(cursor(&schedule_a, 0)), Some(cursor(&schedule_a, 1)),
        ]
    );

    let sys0 = SystemKey(1);
    let sys1 = SystemKey(2);
    let sys3 = SystemKey(4);

    // reset our cursor (disable/enable), and update stepping to test if the
    // cursor properly skips over AlwaysRun & NeverRun systems.  Also set
    // a Break system to ensure that shows properly in the cursor
    stepping
        // disable/enable to reset cursor
        .disable()
        .enable()
        .set_breakpoint_node(TEST_SCHEDULE_A, NodeId::System(sys1))
        .always_run_node(TEST_SCHEDULE_A, NodeId::System(sys3))
        .never_run_node(TEST_SCHEDULE_B, NodeId::System(sys0));

    let mut cursors = Vec::new();
    for _ in 0..9 {
        stepping.step_frame().next_frame();
        cursors.push(stepping.cursor());
        stepping.skipped_systems(&schedule_a);
        stepping.skipped_systems(&schedule_b);
        cursors.push(stepping.cursor());
    }

    assert_eq!(
        cursors,
        vec![
            // before render frame        // after render frame
            Some(cursor(&schedule_a, 0)), Some(cursor(&schedule_a, 1)),
            Some(cursor(&schedule_a, 1)), Some(cursor(&schedule_a, 2)),
            Some(cursor(&schedule_a, 2)), Some(cursor(&schedule_b, 1)),
            Some(cursor(&schedule_b, 1)), Some(cursor(&schedule_b, 2)),
            Some(cursor(&schedule_b, 2)), Some(cursor(&schedule_b, 3)),
            Some(cursor(&schedule_b, 3)), None,
            Some(cursor(&schedule_a, 0)), Some(cursor(&schedule_a, 1)),
            Some(cursor(&schedule_a, 1)), Some(cursor(&schedule_a, 2)),
            Some(cursor(&schedule_a, 2)), Some(cursor(&schedule_b, 1)),
        ]
    );
}

#[test]
fn is_enabled_follows_frames() {
    let mut stepping = Stepping::new();
    assert!(!stepping.is_enabled());
    stepping.enable();
    assert!(!stepping.is_enabled());
    stepping.next_frame();
    assert!(stepping.is_enabled());
    stepping.disable();
    Stepping::begin_frame(Some(&mut stepping));
    assert!(!stepping.is_enabled());
    Stepping::begin_frame(None);
}

#[test]
fn step_frame_needs_enable() {
    let schedule = setup();
    let mut stepping = Stepping::new();
    stepping.add_schedule(TEST_SCHEDULE).step_frame().continue_frame();
    stepping.next_frame();
    assert!(!stepping.is_enabled());
    assert!(stepping.skipped_systems(&schedule).is_none());
}

#[test]
fn enable_does_not_cancel_step() {
    let schedule = setup();
    let mut stepping = Stepping::new();
    stepping.add_schedule(TEST_SCHEDULE).enable();
    stepping.next_frame();
    stepping.step_frame().enable();
    assert_schedule_runs(&schedule, &mut stepping, &[FIRST_SYSTEM]);
}
