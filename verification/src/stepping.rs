//! System stepping: running the systems of selected schedules one at a time,
//! or up to breakpoints, under the control of a debugging user.
use crate::assoc::{
    assoc_map, find_key, has_key, keys_unique, lemma_assoc_absent, lemma_assoc_empty,
    lemma_assoc_index, lemma_assoc_len, lemma_assoc_push, lemma_assoc_remove, lemma_assoc_update,
    Key,
};
use crate::fixed_bit_set::{fbs_insert, fbs_len, fbs_ones, fbs_wf, fbs_with_capacity};
use crate::node::{NodeId, SystemKey};
use crate::schedule::{InternedScheduleLabel, Schedule, SystemTypeId};
use fixedbitset::FixedBitSet;
use vstd::prelude::*;

verus! {

impl Key for NodeId {
    fn key_eq(&self, other: &Self) -> (r: bool) {
        match (self, other) {
            (NodeId::System(a), NodeId::System(b)) => a.0 == b.0,
            (NodeId::SystemSet(a), NodeId::SystemSet(b)) => a.0 == b.0,
            _ => false,
        }
    }
}

/// What stepping does during the current render frame.
#[derive(Clone, Copy, Debug, PartialEq, Eq, Structural)]
pub enum Action {
    /// Stepping is disabled; run all systems
    RunAll,
    /// Stepping is enabled, but we're only running required systems this frame
    Waiting,
    /// Stepping is enabled; run all systems until the end of the frame, or
    /// until we encounter a system marked with [`SystemBehavior::Break`] or all
    /// systems in the frame have run.
    Continue,
    /// stepping is enabled; only run the next system in our step list
    Step,
}

/// How stepping treats one system.
#[derive(Clone, Copy, Debug, PartialEq, Eq, Structural)]
pub enum SystemBehavior {
    /// System will always run regardless of stepping action
    AlwaysRun,
    /// System will never run while stepping is enabled
    NeverRun,
    /// When [`Action::Waiting`] this system will not be run
    /// When [`Action::Step`] this system will be stepped
    /// When [`Action::Continue`] system execution will stop before executing
    /// this system unless its the first system run when continuing
    Break,
    /// When [`Action::Waiting`] this system will not be run
    /// When [`Action::Step`] this system will be stepped
    /// When [`Action::Continue`] this system will be run
    Continue,
}

/// Position in the stepping frame: a schedule_order index, and a system index
/// within that schedule.
#[derive(Clone, Copy, Debug, PartialEq, Eq, Structural)]
pub struct Cursor {
    /// index within `Stepping::schedule_order`
    pub schedule: usize,
    /// index within the schedule's system list
    pub system: usize,
}

/// Two methods of referring to systems: by their type, or by their node in
/// one schedule.
#[derive(Clone, Copy, Debug, PartialEq, Eq, Structural)]
pub enum SystemIdentifier {
    /// Every instance of systems of this type.
    Type(SystemTypeId),
    /// One system node.
    Node(NodeId),
}

/// Updates to the stepping state that will be applied at the start of the
/// next render frame.
#[derive(Clone, Copy, Debug, PartialEq, Eq, Structural)]
pub enum Update {
    /// Set the action stepping will perform for this render frame
    SetAction(Action),
    /// Enable stepping for this schedule
    AddSchedule(InternedScheduleLabel),
    /// Disable stepping for this schedule
    RemoveSchedule(InternedScheduleLabel),
    /// Clear any system-specific behaviors for this schedule
    ClearSchedule(InternedScheduleLabel),
    /// Set a system-specific behavior for this schedule & system
    SetBehavior(InternedScheduleLabel, SystemIdentifier, SystemBehavior),
    /// Clear any system-specific behavior for this schedule & system
    ClearBehavior(InternedScheduleLabel, SystemIdentifier),
}

/// Error returned while the order of the stepped schedules is not known yet:
/// not available until all configured schedules have been run; try again next
/// frame.
#[derive(Clone, Copy, Debug, PartialEq, Eq)]
pub struct NotReady;

impl NotReady {
    /// The message that describes the error.
    pub fn message(&self) -> (r: &'static str)
        ensures
            r@ == "not available until all configured schedules have been run; try again next frame"@,
    {
        "not available until all configured schedules have been run; try again next frame"
    }
}

/// The stepping behavior of the system with key `key`: the configured one, or
/// [`SystemBehavior::Continue`].
pub open spec fn behavior_or_continue(
    behaviors: Map<NodeId, SystemBehavior>,
    key: SystemKey,
) -> SystemBehavior {
    if behaviors.contains_key(NodeId::System(key)) {
        behaviors[NodeId::System(key)]
    } else {
        SystemBehavior::Continue
    }
}

/// The behaviors of the systems `keys`, in order.
pub open spec fn behaviors_of(behaviors: Map<NodeId, SystemBehavior>, keys: Seq<SystemKey>) -> Seq<
    SystemBehavior,
> {
    Seq::new(keys.len(), |i: int| behavior_or_continue(behaviors, keys[i]))
}

/// Applies the queued per-type behavior updates to the first `n` systems of a
/// schedule, in order: a queued `Some(behavior)` sets the behavior of every
/// system of that type, a queued `None` clears it.
pub open spec fn apply_type_updates(
    behaviors: Map<NodeId, SystemBehavior>,
    updates: Map<SystemTypeId, Option<SystemBehavior>>,
    keys: Seq<SystemKey>,
    types: Seq<SystemTypeId>,
    n: nat,
) -> Map<NodeId, SystemBehavior>
    decreases n,
{
    if n == 0 {
        behaviors
    } else {
        let prev = apply_type_updates(behaviors, updates, keys, types, (n - 1) as nat);
        let t = types[n - 1];
        if updates.contains_key(t) {
            match updates[t] {
                None => prev.remove(NodeId::System(keys[n - 1])),
                Some(b) => prev.insert(NodeId::System(keys[n - 1]), b),
            }
        } else {
            prev
        }
    }
}

/// Whether the cursor may stop at a system with this behavior.
pub open spec fn is_steppable(b: SystemBehavior) -> bool {
    !(b is AlwaysRun) && !(b is NeverRun)
}

/// `first` is the index of the first steppable behavior in `bs`, or `None`
/// when there is none.
pub open spec fn is_first_steppable(bs: Seq<SystemBehavior>, first: Option<usize>) -> bool {
    match first {
        Some(i) => i < bs.len() && is_steppable(bs[i as int]) && forall|j: int|
            0 <= j < i ==> !is_steppable(#[trigger] bs[j]),
        None => forall|j: int| 0 <= j < bs.len() ==> !is_steppable(#[trigger] bs[j]),
    }
}

/// The state of a scan over a schedule's systems.
pub ghost struct ScanState {
    /// The systems to skip so far.
    pub skip: Set<usize>,
    /// The index of the next system to run.
    pub pos: int,
    /// The current action.
    pub action: Action,
}

/// One step of the scan, over system `i` with behavior `b`: decides whether
/// `i` is skipped, and moves the position and the action on.
pub open spec fn scan_step(b: SystemBehavior, start: int, i: int, st: ScanState) -> ScanState {
    let after = match (st.action, b) {
        (_, SystemBehavior::NeverRun) => ScanState {
            skip: st.skip.insert(i as usize),
            pos: if i == st.pos { st.pos + 1 } else { st.pos },
            action: st.action,
        },
        (_, SystemBehavior::AlwaysRun) => ScanState {
            skip: st.skip,
            pos: if i == st.pos { st.pos + 1 } else { st.pos },
            action: st.action,
        },
        (Action::Waiting, _) => ScanState { skip: st.skip.insert(i as usize), ..st },
        (Action::Step, _) => if i < st.pos {
            ScanState { skip: st.skip.insert(i as usize), ..st }
        } else if i == st.pos {
            ScanState { skip: st.skip, pos: st.pos + 1, action: Action::Waiting }
        } else {
            st
        },
        (Action::Continue, SystemBehavior::Continue) => if i < start {
            ScanState { skip: st.skip.insert(i as usize), ..st }
        } else {
            st
        },
        (Action::Continue, SystemBehavior::Break) => if i != start {
            ScanState {
                skip: st.skip.insert(i as usize),
                pos: st.pos,
                action: if i > start { Action::Waiting } else { st.action },
            }
        } else {
            st
        },
        (Action::RunAll, _) => st,
    };
    if i == after.pos && after.action != Action::Waiting {
        ScanState { pos: after.pos + 1, ..after }
    } else {
        after
    }
}

/// The scan over the first `n` systems, starting at position `start` with
/// action `action`.
pub open spec fn scan(bs: Seq<SystemBehavior>, start: int, action: Action, n: nat) -> ScanState
    decreases n,
{
    if n == 0 {
        ScanState { skip: Set::empty(), pos: start, action }
    } else {
        scan_step(bs[n - 1], start, n - 1, scan(bs, start, action, (n - 1) as nat))
    }
}

/// Whether a breakpoint lies strictly between `start` and `i`.
pub open spec fn break_between(bs: Seq<SystemBehavior>, start: int, i: int) -> bool {
    exists|b: int| start < b < i && (#[trigger] bs[b]) is Break
}

/// Whether system `i`, with behaviors `bs`, is skipped by a scan from `start`
/// with `action`: a `NeverRun` system always is, an `AlwaysRun` one never is;
/// waiting skips every other system; stepping runs only the first steppable
/// system at or after the cursor; continuing runs the systems from the cursor
/// on, and stops before the first breakpoint past the cursor.
pub open spec fn skipped_by(bs: Seq<SystemBehavior>, start: int, action: Action, i: int) -> bool {
    match bs[i] {
        SystemBehavior::NeverRun => true,
        SystemBehavior::AlwaysRun => false,
        _ => match action {
            Action::Waiting => true,
            Action::Step => first_steppable_from(bs, start) != Some(i as usize),
            Action::Continue => (bs[i] is Continue && i < start) || (bs[i] is Break && i != start)
                || break_between(bs, start, i),
            Action::RunAll => false,
        },
    }
}

/// The first steppable system at or after `i` is steppable, lies at or after
/// `i`, and nothing between `i` and it is steppable.
pub proof fn lemma_first_steppable_from(bs: Seq<SystemBehavior>, i: int)
    requires
        0 <= i,
        bs.len() <= usize::MAX,
    ensures
        first_steppable_from(bs, i) matches Some(f) ==> i <= f < bs.len() && is_steppable(bs[f as int])
            && forall|j: int| i <= j < f ==> !is_steppable(#[trigger] bs[j]),
        first_steppable_from(bs, i) is None ==> forall|j: int|
            i <= j < bs.len() ==> !is_steppable(#[trigger] bs[j]),
    decreases bs.len() - i,
{
    if i < bs.len() && !is_steppable(bs[i]) {
        lemma_first_steppable_from(bs, i + 1);
    }
}

/// The scan's state over a prefix of `m` systems: what it has skipped, and
/// the action it holds.
proof fn lemma_scan_prefix(bs: Seq<SystemBehavior>, start: int, action: Action, m: nat)
    requires
        action != Action::RunAll,
        0 <= start,
        bs.len() <= usize::MAX,
        m <= bs.len(),
    ensures
        forall|i: int|
            #![trigger scan(bs, start, action, m).skip.contains(i as usize)]
            0 <= i < m ==> (scan(bs, start, action, m).skip.contains(i as usize) <==> skipped_by(
                bs,
                start,
                action,
                i,
            )),
        forall|x: usize| #[trigger] scan(bs, start, action, m).skip.contains(x) ==> x < m,
        action == Action::Waiting ==> scan(bs, start, action, m).action == Action::Waiting,
        action == Action::Step ==> {
            let f = first_steppable_from(bs, start);
            let st = scan(bs, start, action, m);
            if f matches Some(k) && k < m {
                st.action == Action::Waiting
            } else {
                &&& st.action == Action::Step
                &&& st.pos == if m <= start { start } else { m as int }
                &&& f == first_steppable_from(bs, st.pos)
            }
        },
        action == Action::Continue ==> scan(bs, start, action, m).action == if break_between(
            bs,
            start,
            m as int,
        ) {
            Action::Waiting
        } else {
            Action::Continue
        },
    decreases m,
{
    if m > 0 {
        let k = (m - 1) as nat;
        lemma_scan_prefix(bs, start, action, k);
        let prev = scan(bs, start, action, k);
        let cur = scan(bs, start, action, m);
        let i = k as int;
        assert(cur == scan_step(bs[i], start, i, prev));
        if action == Action::Step {
            lemma_first_steppable_from(bs, start);
            if i >= start && first_steppable_from(bs, start) == first_steppable_from(bs, i) {
                assert(first_steppable_from(bs, i) == if is_steppable(bs[i]) {
                    Some(i as usize)
                } else {
                    first_steppable_from(bs, i + 1)
                });
            }
        }
        if action == Action::Continue {
            if break_between(bs, start, i) {
                let b = choose|b: int| start < b < i && (#[trigger] bs[b]) is Break;
                assert(start < b < m && bs[b] is Break);
            }
            if start < i && bs[i] is Break {
                assert(break_between(bs, start, m as int));
            }
            if break_between(bs, start, m as int) && !break_between(bs, start, i) {
                let b = choose|b: int| start < b < m && (#[trigger] bs[b]) is Break;
                assert(b == i);
            }
        }
        assert(cur.skip.contains(i as usize) <==> skipped_by(bs, start, action, i));
        assert forall|j: int| 0 <= j < m implies (#[trigger] cur.skip.contains(j as usize)
            <==> skipped_by(bs, start, action, j)) by {
            if j < i {
                assert(prev.skip.contains(j as usize) <==> skipped_by(bs, start, action, j));
                assert(j as usize != i as usize);
                if action == Action::Continue {
                    assert(break_between(bs, start, j) ==> break_between(bs, start, i));
                }
            }
        }
        assert forall|x: usize| #[trigger] cur.skip.contains(x) implies x < m by {
            if x != i as usize {
                assert(prev.skip.contains(x));
            }
        }
    }
}

/// The skip list of a scan over a whole schedule is exactly the set of
/// systems that [`skipped_by`] picks.
pub proof fn lemma_scan_skip(bs: Seq<SystemBehavior>, start: int, action: Action)
    requires
        action != Action::RunAll,
        0 <= start,
        bs.len() <= usize::MAX,
    ensures
        forall|i: int|
            #![trigger scan(bs, start, action, bs.len()).skip.contains(i as usize)]
            0 <= i < bs.len() ==> (scan(bs, start, action, bs.len()).skip.contains(i as usize)
                <==> skipped_by(bs, start, action, i)),
        forall|x: usize| #[trigger] scan(bs, start, action, bs.len()).skip.contains(x) ==> x < bs.len(),
{
    lemma_scan_prefix(bs, start, action, bs.len());
}

/// A system marked `NeverRun` is in every skip list, and one marked
/// `AlwaysRun` is in none, whatever the action.
pub proof fn lemma_never_run_and_always_run(bs: Seq<SystemBehavior>, start: int, action: Action, i: int)
    requires
        action != Action::RunAll,
        0 <= start,
        bs.len() <= usize::MAX,
        0 <= i < bs.len(),
    ensures
        bs[i] is NeverRun ==> scan(bs, start, action, bs.len()).skip.contains(i as usize),
        bs[i] is AlwaysRun ==> !scan(bs, start, action, bs.len()).skip.contains(i as usize),
{
    lemma_scan_skip(bs, start, action);
}

/// While waiting, only the systems marked `AlwaysRun` run.
pub proof fn lemma_waiting_runs_only_always_run(bs: Seq<SystemBehavior>, start: int, i: int)
    requires
        0 <= start,
        bs.len() <= usize::MAX,
        0 <= i < bs.len(),
    ensures
        !scan(bs, start, Action::Waiting, bs.len()).skip.contains(i as usize) <==> bs[i] is AlwaysRun,
{
    lemma_scan_skip(bs, start, Action::Waiting);
}

/// A step runs at most one steppable system: the first one at or after the
/// cursor.
pub proof fn lemma_step_runs_one_system(bs: Seq<SystemBehavior>, start: int, i: int, j: int)
    requires
        0 <= start,
        bs.len() <= usize::MAX,
        0 <= i < bs.len(),
        0 <= j < bs.len(),
        i != j,
        is_steppable(bs[i]),
        is_steppable(bs[j]),
    ensures
        scan(bs, start, Action::Step, bs.len()).skip.contains(i as usize) || scan(
            bs,
            start,
            Action::Step,
            bs.len(),
        ).skip.contains(j as usize),
        !scan(bs, start, Action::Step, bs.len()).skip.contains(i as usize) ==> first_steppable_from(
            bs,
            start,
        ) == Some(i as usize),
{
    lemma_scan_skip(bs, start, Action::Step);
}

/// Continuing runs every system marked `Continue` from the cursor on, up to
/// the first breakpoint past the cursor.
pub proof fn lemma_continue_runs_to_breakpoint(bs: Seq<SystemBehavior>, start: int, i: int)
    requires
        0 <= start <= i < bs.len(),
        bs.len() <= usize::MAX,
        bs[i] is Continue,
        forall|b: int| start < b < i ==> !((#[trigger] bs[b]) is Break),
    ensures
        !scan(bs, start, Action::Continue, bs.len()).skip.contains(i as usize),
{
    lemma_scan_skip(bs, start, Action::Continue);
}

/// The abstract state of one stepped schedule.
pub ghost struct ScheduleStateView {
    /// Per-system behavior.
    pub behaviors: Map<NodeId, SystemBehavior>,
    /// Cached order of the schedule's systems.
    pub node_ids: Seq<SystemKey>,
    /// Behavior changes by system type, applied at the next skip-list request.
    pub behavior_updates: Map<SystemTypeId, Option<SystemBehavior>>,
    /// The first steppable system, when known.
    pub first: Option<usize>,
}

/// The stepping state of one schedule.
pub struct ScheduleState {
    /// per-system [`SystemBehavior`]
    behaviors: Vec<(NodeId, SystemBehavior)>,
    /// order of the system keys in the schedule
    node_ids: Vec<SystemKey>,
    /// changes to system behavior that should be applied the next time
    /// [`ScheduleState::skipped_systems()`] is called
    behavior_updates: Vec<(SystemTypeId, Option<SystemBehavior>)>,
    /// the first steppable system in the schedule
    first: Option<usize>,
}

impl View for ScheduleState {
    type V = ScheduleStateView;

    closed spec fn view(&self) -> ScheduleStateView {
        ScheduleStateView {
            behaviors: assoc_map(self.behaviors@),
            node_ids: self.node_ids@,
            behavior_updates: assoc_map(self.behavior_updates@),
            first: self.first,
        }
    }
}

impl ScheduleState {
    /// Both maps have distinct keys.
    pub closed spec fn wf(&self) -> bool {
        keys_unique(self.behaviors@) && keys_unique(self.behavior_updates@)
    }

    /// A state with no behavior, no cached order and no pending update.
    pub fn new() -> (r: ScheduleState)
        ensures
            r.wf(),
            r@ == fresh_schedule_state(),
    {
        let r = ScheduleState {
            behaviors: Vec::new(),
            node_ids: Vec::new(),
            behavior_updates: Vec::new(),
            first: None,
        };
        proof {
            lemma_assoc_empty(r.behaviors@);
            lemma_assoc_empty(r.behavior_updates@);
            assert(r.node_ids@ =~= Seq::<SystemKey>::empty());
        }
        r
    }

    /// Sets `behavior` for `node`, replacing any earlier one.
    fn insert_behavior(&mut self, node: NodeId, behavior: SystemBehavior)
        requires
            old(self).wf(),
        ensures
            final(self).wf(),
            final(self)@ == (ScheduleStateView {
                behaviors: old(self)@.behaviors.insert(node, behavior),
                ..old(self)@
            }),
    {
        match find_key(&self.behaviors, &node) {
            Some(i) => {
                proof {
                    lemma_assoc_update(self.behaviors@, i as int, behavior);
                }
                self.behaviors.set(i, (node, behavior));
            },
            None => {
                proof {
                    lemma_assoc_push(self.behaviors@, node, behavior);
                }
                self.behaviors.push((node, behavior));
            },
        }
    }

    /// Removes any behavior set for `node`.
    fn remove_behavior(&mut self, node: NodeId)
        requires
            old(self).wf(),
        ensures
            final(self).wf(),
            final(self)@ == (ScheduleStateView {
                behaviors: old(self)@.behaviors.remove(node),
                ..old(self)@
            }),
    {
        match find_key(&self.behaviors, &node) {
            Some(i) => {
                proof {
                    lemma_assoc_remove(self.behaviors@, i as int);
                }
                self.behaviors.remove(i);
            },
            None => {
                proof {
                    lemma_assoc_absent(self.behaviors@, node);
                    assert(assoc_map(self.behaviors@).remove(node) =~= assoc_map(self.behaviors@));
                }
            },
        }
    }

    /// Queues `update` for every system of type `system_type`, replacing any
    /// earlier queued update for it.
    fn queue_type_update(&mut self, system_type: SystemTypeId, update: Option<SystemBehavior>)
        requires
            old(self).wf(),
        ensures
            final(self).wf(),
            final(self)@ == (ScheduleStateView {
                behavior_updates: old(self)@.behavior_updates.insert(system_type, update),
                ..old(self)@
            }),
    {
        match find_key(&self.behavior_updates, &system_type) {
            Some(i) => {
                proof {
                    lemma_assoc_update(self.behavior_updates@, i as int, update);
                }
                self.behavior_updates.set(i, (system_type, update));
            },
            None => {
                proof {
                    lemma_assoc_push(self.behavior_updates@, system_type, update);
                }
                self.behavior_updates.push((system_type, update));
            },
        }
    }

    /// set the stepping behavior for a system in this schedule
    fn set_behavior(&mut self, system: SystemIdentifier, behavior: SystemBehavior)
        requires
            old(self).wf(),
        ensures
            final(self).wf(),
            final(self)@ == set_behavior_spec(old(self)@, system, behavior),
    {
        self.first = None;
        match system {
            SystemIdentifier::Node(node_id) => {
                self.insert_behavior(node_id, behavior);
            },
            // Behaviors are indexed by NodeId, but we cannot map a system
            // type to a NodeId without the `Schedule`.  So queue this update
            // to be processed the next time `skipped_systems()` is called.
            SystemIdentifier::Type(type_id) => {
                self.queue_type_update(type_id, Some(behavior));
            },
        }
    }

    /// clear the stepping behavior for a system in this schedule
    fn clear_behavior(&mut self, system: SystemIdentifier)
        requires
            old(self).wf(),
        ensures
            final(self).wf(),
            final(self)@ == clear_behavior_spec(old(self)@, system),
    {
        self.first = None;
        match system {
            SystemIdentifier::Node(node_id) => {
                self.remove_behavior(node_id);
            },
            // queue type updates to be processed later when we have the schedule
            SystemIdentifier::Type(type_id) => {
                self.queue_type_update(type_id, None);
            },
        }
    }

    /// clear all system behaviors
    fn clear_behaviors(&mut self)
        requires
            old(self).wf(),
        ensures
            final(self).wf(),
            final(self)@ == clear_behaviors_spec(old(self)@),
    {
        self.behaviors.clear();
        self.behavior_updates.clear();
        self.first = None;
        proof {
            lemma_assoc_empty(self.behaviors@);
            lemma_assoc_empty(self.behavior_updates@);
        }
    }
}

impl ScheduleState {
    /// apply system behavior updates by looking up the keys of the systems of
    /// that type in the schedule, and updating the behaviors
    fn apply_behavior_updates(&mut self, schedule: &Schedule)
        requires
            old(self).wf(),
            schedule.wf(),
        ensures
            final(self).wf(),
            final(self)@ == (ScheduleStateView {
                behaviors: apply_type_updates(
                    old(self)@.behaviors,
                    old(self)@.behavior_updates,
                    schedule.keys(),
                    schedule.types(),
                    schedule.keys().len(),
                ),
                behavior_updates: Map::empty(),
                ..old(self)@
            }),
    {
        let ghost pre = self@;
        let keys = schedule.system_ids();
        let types = schedule.system_types();
        let mut i: usize = 0;
        // Systems may be present multiple times within a schedule, so we
        // iterate through all systems in the schedule, and check our behavior
        // updates for the system type.
        while i < keys.len()
            invariant
                self.wf(),
                keys@ == schedule.keys(),
                types@ == schedule.types(),
                keys@.len() == types@.len(),
                0 <= i <= keys@.len(),
                self@ == (ScheduleStateView {
                    behaviors: apply_type_updates(
                        pre.behaviors,
                        pre.behavior_updates,
                        keys@,
                        types@,
                        i as nat,
                    ),
                    ..pre
                }),
            decreases keys@.len() - i,
        {
            let key = keys[i];
            let system_type = types[i];
            match find_key(&self.behavior_updates, &system_type) {
                None => {
                    proof {
                        lemma_assoc_absent(self.behavior_updates@, system_type);
                    }
                },
                Some(j) => {
                    proof {
                        lemma_assoc_index(self.behavior_updates@, j as int);
                    }
                    match self.behavior_updates[j].1 {
                        None => {
                            self.remove_behavior(NodeId::System(key));
                        },
                        Some(behavior) => {
                            self.insert_behavior(NodeId::System(key), behavior);
                        },
                    }
                },
            }
            i = i + 1;
        }
        self.behavior_updates.clear();
        proof {
            lemma_assoc_empty(self.behavior_updates@);
        }
    }

    /// Looks up the behavior configured for the system with key `key`.
    fn behavior_of(&self, key: SystemKey) -> (r: SystemBehavior)
        requires
            self.wf(),
        ensures
            r == behavior_or_continue(self@.behaviors, key),
    {
        match find_key(&self.behaviors, &NodeId::System(key)) {
            Some(j) => {
                proof {
                    lemma_assoc_index(self.behaviors@, j as int);
                }
                self.behaviors[j].1
            },
            None => {
                proof {
                    lemma_assoc_absent(self.behaviors@, NodeId::System(key));
                }
                SystemBehavior::Continue
            },
        }
    }
}

impl ScheduleState {
    /// Returns the skip list of `schedule` for this render frame, and the
    /// index of the next system to run in it (`None` once every system has
    /// been passed). The scan starts at system `start` with `action`.
    fn skipped_systems(&mut self, schedule: &Schedule, start: usize, action: Action) -> (r: (
        FixedBitSet,
        Option<usize>,
    ))
        requires
            old(self).wf(),
            schedule.wf(),
            action != Action::RunAll,
        ensures
            final(self).wf(),
            final(self)@ == refreshed_state(old(self)@, schedule.keys(), schedule.types()),
            fbs_wf(r.0),
            fbs_len(r.0) == schedule.keys().len(),
            fbs_ones(r.0) == schedule_scan(final(self)@, schedule.keys(), start, action).skip,
            r.1 == next_position(schedule_scan(final(self)@, schedule.keys(), start, action).pos, schedule.keys().len()),
    {
        let ghost s0 = self@;
        // if our key list hasn't been populated, copy it over from the
        // schedule
        if self.node_ids.len() != schedule.systems_len() {
            self.node_ids = copy_keys(schedule.system_ids());
        }
        // Now that we have the schedule, apply any pending system behavior
        // updates.  The schedule is required to map from system type to
        // node.
        if self.behavior_updates.len() != 0 {
            self.apply_behavior_updates(schedule);
        } else {
            proof {
                lemma_assoc_empty(self.behavior_updates@);
                lemma_no_type_updates(
                    s0.behaviors,
                    s0.behavior_updates,
                    schedule.keys(),
                    schedule.types(),
                    schedule.keys().len(),
                );
            }
        }
        let keys = schedule.system_ids();
        let n = keys.len();
        let ghost bs = behaviors_of(self@.behaviors, keys@);
        // if we don't have a first system set, set it now
        if self.first.is_none() {
            let mut found: Option<usize> = None;
            let mut i: usize = 0;
            while i < n
                invariant_except_break
                    found is None,
                invariant
                    self.wf(),
                    keys@ == schedule.keys(),
                    n == keys@.len(),
                    bs == behaviors_of(self@.behaviors, keys@),
                    0 <= i <= n,
                    first_steppable_from(bs, 0) == first_steppable_from(bs, i as int),
                ensures
                    found == first_steppable_from(bs, 0),
                decreases n - i,
            {
                let b = self.behavior_of(keys[i]);
                if b == SystemBehavior::AlwaysRun || b == SystemBehavior::NeverRun {
                    i = i + 1;
                } else {
                    found = Some(i);
                    break;
                }
            }
            self.first = found;
        }
        let mut skip = fbs_with_capacity(n);
        let mut pos: usize = start;
        let mut action = action;
        let ghost action0 = action;
        let mut i: usize = 0;
        while i < n
            invariant
                self.wf(),
                keys@ == schedule.keys(),
                n == keys@.len(),
                bs == behaviors_of(self@.behaviors, keys@),
                0 <= i <= n,
                action != Action::RunAll,
                action == Action::Step ==> i <= pos,
                fbs_wf(skip),
                fbs_len(skip) == n,
                scan(bs, start as int, action0, i as nat).skip == fbs_ones(skip),
                scan(bs, start as int, action0, i as nat).pos == pos,
                scan(bs, start as int, action0, i as nat).action == action,
            decreases n - i,
        {
            let behavior = self.behavior_of(keys[i]);
            match behavior {
                // regardless of which action we're performing, if the system
                // is marked as NeverRun, add it to the skip list.
                // Also, advance the cursor past this system if it is our
                // current position
                SystemBehavior::NeverRun => {
                    fbs_insert(&mut skip, i);
                    if i == pos {
                        pos = pos + 1;
                    }
                },
                // similarly, ignore any system marked as AlwaysRun; they should
                // never be added to the skip list
                // Also, advance the cursor past this system if it is our
                // current position
                SystemBehavior::AlwaysRun => {
                    if i == pos {
                        pos = pos + 1;
                    }
                },
                _ => {
                    match action {
                        // if we're waiting, no other systems besides AlwaysRun
                        // should be run, so add systems to the skip list
                        Action::Waiting => {
                            fbs_insert(&mut skip, i);
                        },
                        // If we're stepping, the remaining behaviors don't
                        // matter, we're only going to run the system at our
                        // cursor.  Any system prior to the cursor is skipped.
                        // Once we encounter the system at the cursor, we'll
                        // advance the cursor, and set behavior to Waiting to
                        // skip remaining systems.
                        Action::Step => {
                            if i < pos {
                                fbs_insert(&mut skip, i);
                            } else if i == pos {
                                pos = pos + 1;
                                action = Action::Waiting;
                            }
                        },
                        Action::Continue => {
                            if behavior == SystemBehavior::Continue {
                                // skip any systems prior to our start
                                // position: that's where the stepping frame
                                // left off last time we ran anything.
                                if i < start {
                                    fbs_insert(&mut skip, i);
                                }
                            } else {
                                // a breakpoint: stop before executing the
                                // system, unless the cursor points at it.
                                if i != start {
                                    fbs_insert(&mut skip, i);
                                    if i > start {
                                        action = Action::Waiting;
                                    }
                                }
                            }
                        },
                        Action::RunAll => {},
                    }
                },
            }
            // If we're at the cursor position, and not waiting, advance the
            // cursor.
            if i == pos && action != Action::Waiting {
                pos = pos + 1;
            }
            i = i + 1;
        }
        // output is the skip list, and the index of the next system to run in
        // this schedule.
        if pos >= n {
            (skip, None)
        } else {
            (skip, Some(pos))
        }
    }
}

/// Copies a list of system keys.
fn copy_keys(keys: &Vec<SystemKey>) -> (r: Vec<SystemKey>)
    ensures
        r@ == keys@,
{
    let mut r: Vec<SystemKey> = Vec::new();
    let mut i: usize = 0;
    while i < keys.len()
        invariant
            0 <= i <= keys@.len(),
            r@ == keys@.take(i as int),
        decreases keys@.len() - i,
    {
        r.push(keys[i]);
        i = i + 1;
        proof {
            assert(r@ =~= keys@.take(i as int));
        }
    }
    proof {
        assert(r@ =~= keys@);
    }
    r
}

/// The index of the first steppable behavior of `bs` at or after `i`.
pub open spec fn first_steppable_from(bs: Seq<SystemBehavior>, i: int) -> Option<usize>
    decreases bs.len() - i,
{
    if i < 0 || i >= bs.len() {
        None
    } else if is_steppable(bs[i]) {
        Some(i as usize)
    } else {
        first_steppable_from(bs, i + 1)
    }
}

/// A schedule's stepping state once it has seen `keys` and `types`: the
/// cached key order refreshed, the queued updates applied, and the first
/// steppable system found.
pub open spec fn refreshed_state(
    s: ScheduleStateView,
    keys: Seq<SystemKey>,
    types: Seq<SystemTypeId>,
) -> ScheduleStateView {
    let behaviors = apply_type_updates(s.behaviors, s.behavior_updates, keys, types, keys.len());
    ScheduleStateView {
        behaviors,
        node_ids: if s.node_ids.len() != keys.len() { keys } else { s.node_ids },
        behavior_updates: Map::empty(),
        first: if s.first is None {
            first_steppable_from(behaviors_of(behaviors, keys), 0)
        } else {
            s.first
        },
    }
}

/// The scan of a whole schedule whose behaviors are those of `s`.
pub open spec fn schedule_scan(
    s: ScheduleStateView,
    keys: Seq<SystemKey>,
    start: usize,
    action: Action,
) -> ScanState {
    scan(behaviors_of(s.behaviors, keys), start as int, action, keys.len())
}

/// The next system to run after a scan that ended at `pos`, in a schedule of
/// `n` systems: none once the scan passed the last system.
pub open spec fn next_position(pos: int, n: nat) -> Option<usize> {
    if pos >= n {
        None
    } else {
        Some(pos as usize)
    }
}

/// With no queued update, applying the updates changes nothing.
pub proof fn lemma_no_type_updates(
    behaviors: Map<NodeId, SystemBehavior>,
    updates: Map<SystemTypeId, Option<SystemBehavior>>,
    keys: Seq<SystemKey>,
    types: Seq<SystemTypeId>,
    n: nat,
)
    requires
        updates.dom() == Set::<SystemTypeId>::empty(),
    ensures
        apply_type_updates(behaviors, updates, keys, types, n) == behaviors,
    decreases n,
{
    if n > 0 {
        lemma_no_type_updates(behaviors, updates, keys, types, (n - 1) as nat);
        assert(!updates.dom().contains(types[n - 1]));
    }
}

/// The state of a schedule that has just been added to stepping.
pub open spec fn fresh_schedule_state() -> ScheduleStateView {
    ScheduleStateView {
        behaviors: Map::empty(),
        node_ids: Seq::empty(),
        behavior_updates: Map::empty(),
        first: None,
    }
}

/// The state after setting `behavior` for `system`.
pub open spec fn set_behavior_spec(
    s: ScheduleStateView,
    system: SystemIdentifier,
    behavior: SystemBehavior,
) -> ScheduleStateView {
    match system {
        SystemIdentifier::Node(id) => ScheduleStateView {
            behaviors: s.behaviors.insert(id, behavior),
            first: None,
            ..s
        },
        SystemIdentifier::Type(t) => ScheduleStateView {
            behavior_updates: s.behavior_updates.insert(t, Some(behavior)),
            first: None,
            ..s
        },
    }
}

/// The state after clearing the behavior of `system`.
pub open spec fn clear_behavior_spec(s: ScheduleStateView, system: SystemIdentifier) -> ScheduleStateView {
    match system {
        SystemIdentifier::Node(id) => ScheduleStateView {
            behaviors: s.behaviors.remove(id),
            first: None,
            ..s
        },
        SystemIdentifier::Type(t) => ScheduleStateView {
            behavior_updates: s.behavior_updates.insert(t, None),
            first: None,
            ..s
        },
    }
}

/// The state after clearing every behavior and pending update.
pub open spec fn clear_behaviors_spec(s: ScheduleStateView) -> ScheduleStateView {
    ScheduleStateView {
        behaviors: Map::empty(),
        behavior_updates: Map::empty(),
        first: None,
        ..s
    }
}

/// The state after queueing `u` for the next render frame.
pub open spec fn with_update(s: SteppingView, u: Update) -> SteppingView {
    SteppingView { updates: s.updates.push(u), ..s }
}

/// The cursor as the user sees it: the label of the schedule under it and the
/// node of the system under it, while stepping is enabled and both exist.
pub open spec fn cursor_spec(s: SteppingView) -> Option<(InternedScheduleLabel, NodeId)> {
    if s.action == Action::RunAll || s.cursor.schedule >= s.order.len() {
        None
    } else {
        let label = s.order[s.cursor.schedule as int];
        if !s.states.contains_key(label) {
            None
        } else if s.cursor.system < s.states[label].node_ids.len() {
            Some((label, NodeId::System(s.states[label].node_ids[s.cursor.system as int])))
        } else {
            None
        }
    }
}

/// The first steppable system of the schedule at `index` in the order, as far
/// as it is known; 0 otherwise.
pub open spec fn first_system_index(s: SteppingView, index: int) -> usize {
    if 0 <= index < s.order.len() && s.states.contains_key(s.order[index]) {
        match s.states[s.order[index]].first {
            Some(f) => f,
            None => 0,
        }
    } else {
        0
    }
}

/// The state with the cursor moved to the start of the first schedule.
pub open spec fn reset_cursor_spec(s: SteppingView) -> SteppingView {
    SteppingView { cursor: Cursor { schedule: 0, system: first_system_index(s, 0) }, ..s }
}

/// The action after a request for `requested` while `current` is in force:
/// disabling always succeeds; while disabled only enabling does; while
/// waiting every request does; a pending step or continue is kept.
pub open spec fn transition(current: Action, requested: Action) -> Action {
    if requested == Action::RunAll {
        Action::RunAll
    } else if current == Action::RunAll {
        if requested == Action::Waiting {
            Action::Waiting
        } else {
            Action::RunAll
        }
    } else if current == Action::Waiting {
        requested
    } else {
        current
    }
}

/// The order without `label`.
pub open spec fn without(order: Seq<InternedScheduleLabel>, label: InternedScheduleLabel) -> Seq<
    InternedScheduleLabel,
> {
    if order.contains(label) {
        order.remove(order.index_of(label))
    } else {
        order
    }
}

/// The stepping state with the state of schedule `label` replaced by `f(state)`
/// when the schedule is stepped, and unchanged otherwise.
pub open spec fn with_state(s: SteppingView, label: InternedScheduleLabel, st: ScheduleStateView) -> SteppingView {
    if s.states.contains_key(label) {
        SteppingView { states: s.states.insert(label, st), ..s }
    } else {
        s
    }
}

/// Applies one queued update; the flag says whether the cursor must be reset.
pub open spec fn apply_update(s: SteppingView, u: Update) -> (SteppingView, bool) {
    match u {
        Update::SetAction(a) => (
            SteppingView { action: transition(s.action, a), ..s },
            a == Action::RunAll,
        ),
        Update::AddSchedule(l) => (
            SteppingView { states: s.states.insert(l, fresh_schedule_state()), ..s },
            false,
        ),
        Update::RemoveSchedule(l) => (
            SteppingView { states: s.states.remove(l), order: without(s.order, l), ..s },
            true,
        ),
        Update::ClearSchedule(l) => (with_state(s, l, clear_behaviors_spec(s.states[l])), false),
        Update::SetBehavior(l, system, b) => (
            with_state(s, l, set_behavior_spec(s.states[l], system, b)),
            false,
        ),
        Update::ClearBehavior(l, system) => (
            with_state(s, l, clear_behavior_spec(s.states[l], system)),
            false,
        ),
    }
}

/// Applies the queued updates in order; the flag says whether any of them
/// asks for the cursor to be reset.
pub open spec fn apply_updates(s: SteppingView, us: Seq<Update>) -> (SteppingView, bool)
    decreases us.len(),
{
    if us.len() == 0 {
        (s, false)
    } else {
        let (p, r) = apply_updates(s, us.drop_last());
        let (q, r2) = apply_update(p, us.last());
        (q, r || r2)
    }
}

/// The state at the start of the next render frame.
pub open spec fn next_frame_spec(s: SteppingView) -> SteppingView {
    let s1 = if s.action != Action::RunAll {
        let a = SteppingView { action: Action::Waiting, previous_schedule: None, ..s };
        if s.cursor.schedule >= s.order.len() {
            reset_cursor_spec(a)
        } else {
            a
        }
    } else {
        s
    };
    if s.updates.len() == 0 {
        s1
    } else {
        let (s2, reset) = apply_updates(s1, s.updates);
        let s3 = SteppingView { updates: Seq::empty(), ..s2 };
        if reset {
            reset_cursor_spec(s3)
        } else {
            s3
        }
    }
}

/// Disabling is final: when the last queued update disables stepping, the
/// next frame runs every system.
pub proof fn lemma_disable_wins(s: SteppingView)
    requires
        s.updates.len() > 0,
        s.updates.last() == Update::SetAction(Action::RunAll),
    ensures
        next_frame_spec(s).action == Action::RunAll,
{
}

/// Stepping or continuing has no effect unless stepping has been enabled.
pub proof fn lemma_step_needs_enable(s: SteppingView, requested: Action)
    requires
        s.action == Action::RunAll,
        requested != Action::Waiting,
        s.updates == seq![Update::SetAction(requested)],
    ensures
        next_frame_spec(s).action == Action::RunAll,
{
    assert(s.updates.drop_last() =~= Seq::<Update>::empty());
    assert(apply_updates(s, s.updates.drop_last()) == (s, false));
}

/// Returns the position of the first occurrence of `label` in `order`.
fn position_of(order: &Vec<InternedScheduleLabel>, label: InternedScheduleLabel) -> (r: Option<usize>)
    ensures
        r matches Some(k) ==> k < order@.len() && order@[k as int] == label && forall|j: int|
            0 <= j < k ==> order@[j] != label,
        r is None ==> !order@.contains(label),
{
    let mut i: usize = 0;
    while i < order.len()
        invariant
            0 <= i <= order@.len(),
            forall|j: int| 0 <= j < i ==> order@[j] != label,
        decreases order@.len() - i,
    {
        if order[i] == label {
            return Some(i);
        }
        i = i + 1;
    }
    None
}

/// The position that schedule `label` takes in the order when it asks for
/// its skip list: its place if it has one, else right after the schedule that
/// asked last (or first, when none has asked yet this frame).
pub open spec fn schedule_index(s: SteppingView, label: InternedScheduleLabel) -> int {
    if s.order.contains(label) {
        s.order.index_of(label)
    } else {
        match s.previous_schedule {
            None => 0,
            Some(last) => last + 1,
        }
    }
}

/// The order once schedule `label` has asked for its skip list.
pub open spec fn order_with(s: SteppingView, label: InternedScheduleLabel) -> Seq<InternedScheduleLabel> {
    if s.order.contains(label) {
        s.order
    } else {
        s.order.insert(schedule_index(s, label), label)
    }
}

/// The scan that decides the skip list of schedule `label`: the schedule under
/// the cursor is scanned from the cursor with the current action; any other
/// one is scanned from its start, waiting.
pub open spec fn skip_scan(
    s: SteppingView,
    label: InternedScheduleLabel,
    keys: Seq<SystemKey>,
    types: Seq<SystemTypeId>,
) -> ScanState {
    let st = refreshed_state(s.states[label], keys, types);
    if schedule_index(s, label) == s.cursor.schedule {
        schedule_scan(st, keys, s.cursor.system, s.action)
    } else {
        schedule_scan(st, keys, 0, Action::Waiting)
    }
}

/// The stepping state after schedule `label`, with systems `keys` of types
/// `types`, has asked for its skip list.
pub open spec fn after_skipped_systems(
    s: SteppingView,
    label: InternedScheduleLabel,
    keys: Seq<SystemKey>,
    types: Seq<SystemTypeId>,
) -> SteppingView {
    let index = schedule_index(s, label);
    let at_cursor = index == s.cursor.schedule;
    let mid = SteppingView {
        states: s.states.insert(label, refreshed_state(s.states[label], keys, types)),
        order: order_with(s, label),
        previous_schedule: Some(index as usize),
        action: if at_cursor && s.action == Action::Step {
            Action::Waiting
        } else {
            s.action
        },
        ..s
    };
    let next = if at_cursor {
        next_position(skip_scan(s, label, keys, types).pos, keys.len())
    } else {
        Some(s.cursor.system)
    };
    match next {
        Some(i) => SteppingView { cursor: Cursor { system: i, ..s.cursor }, ..mid },
        None => SteppingView {
            cursor: Cursor {
                schedule: (s.cursor.schedule + 1) as usize,
                system: first_system_index(mid, s.cursor.schedule + 1),
            },
            ..mid
        },
    }
}

/// The abstract state of the stepping controller.
pub ghost struct SteppingView {
    /// The state of each schedule with stepping enabled.
    pub states: Map<InternedScheduleLabel, ScheduleStateView>,
    /// The order in which the stepped schedules asked for skip lists.
    pub order: Seq<InternedScheduleLabel>,
    /// Current position in the stepping frame.
    pub cursor: Cursor,
    /// Index in `order` of the last schedule that asked for a skip list.
    pub previous_schedule: Option<usize>,
    /// Action to perform during this render frame.
    pub action: Action,
    /// Updates to apply at the start of the next render frame.
    pub updates: Seq<Update>,
}

/// Resource for controlling system stepping behavior
pub struct Stepping {
    // state for each schedule with stepping enabled
    schedule_states: Vec<(InternedScheduleLabel, ScheduleState)>,
    // dynamically generated schedule order
    schedule_order: Vec<InternedScheduleLabel>,
    // current position in the stepping frame
    cursor: Cursor,
    // index in `schedule_order` of the last schedule to call `skipped_systems()`
    previous_schedule: Option<usize>,
    // Action to perform during this render frame
    action: Action,
    // Updates apply at the start of the next render frame
    updates: Vec<Update>,
}

/// The views of the schedule states of a list of labelled states.
pub open spec fn state_views(s: Seq<(InternedScheduleLabel, ScheduleState)>) -> Map<
    InternedScheduleLabel,
    ScheduleStateView,
> {
    view_map(assoc_map(s))
}

/// The views of the values of a map of schedule states.
pub open spec fn view_map(m: Map<InternedScheduleLabel, ScheduleState>) -> Map<
    InternedScheduleLabel,
    ScheduleStateView,
> {
    Map::new(|k: InternedScheduleLabel| m.contains_key(k), |k: InternedScheduleLabel| m[k]@)
}

/// Inserting into a map of states inserts the view into its views.
pub proof fn lemma_view_map_insert(
    m: Map<InternedScheduleLabel, ScheduleState>,
    k: InternedScheduleLabel,
    v: ScheduleState,
)
    ensures
        view_map(m.insert(k, v)) == view_map(m).insert(k, v@),
{
    assert(view_map(m.insert(k, v)) =~= view_map(m).insert(k, v@));
}

/// Removing from a map of states removes from its views.
pub proof fn lemma_view_map_remove(m: Map<InternedScheduleLabel, ScheduleState>, k: InternedScheduleLabel)
    ensures
        view_map(m.remove(k)) == view_map(m).remove(k),
{
    assert(view_map(m.remove(k)) =~= view_map(m).remove(k));
}

/// Every entry of a list of labelled states is well formed.
pub open spec fn states_wf(s: Seq<(InternedScheduleLabel, ScheduleState)>) -> bool {
    &&& keys_unique(s)
    &&& forall|i: int| 0 <= i < s.len() ==> (#[trigger] s[i]).1.wf()
}

impl View for Stepping {
    type V = SteppingView;

    closed spec fn view(&self) -> SteppingView {
        SteppingView {
            states: state_views(self.schedule_states@),
            order: self.schedule_order@,
            cursor: self.cursor,
            previous_schedule: self.previous_schedule,
            action: self.action,
            updates: self.updates@,
        }
    }
}

/// The invariant of the stepping controller, over its abstract state: the
/// order lists stepped schedules, each at most once; the previous schedule is
/// a position in the order, and is only known while stepping is enabled.
pub open spec fn stepping_inv(s: SteppingView) -> bool {
    &&& s.order.no_duplicates()
    &&& forall|i: int| 0 <= i < s.order.len() ==> s.states.contains_key(#[trigger] s.order[i])
    &&& s.previous_schedule matches Some(p) ==> p < s.order.len()
    &&& s.action == Action::RunAll ==> s.previous_schedule is None
    &&& s.states.dom().finite()
}

impl Stepping {
    /// The stepping controller is well formed.
    pub closed spec fn wf(&self) -> bool {
        &&& states_wf(self.schedule_states@)
        &&& stepping_inv(self@)
    }

    /// Create a new instance of the `Stepping` resource.
    pub fn new() -> (r: Stepping)
        ensures
            r.wf(),
            r@ == (SteppingView {
                states: Map::empty(),
                order: Seq::empty(),
                cursor: Cursor { schedule: 0, system: 0 },
                previous_schedule: None,
                action: Action::RunAll,
                updates: Seq::empty(),
            }),
    {
        let r = Stepping {
            schedule_states: Vec::new(),
            schedule_order: Vec::new(),
            cursor: Cursor { schedule: 0, system: 0 },
            previous_schedule: None,
            action: Action::RunAll,
            updates: Vec::new(),
        };
        proof {
            lemma_assoc_empty(r.schedule_states@);
            assert(state_views(r.schedule_states@) =~= Map::empty());
            assert(state_views(r.schedule_states@).dom() =~= Set::empty());
        }
        r
    }

    /// Queues `update` for the start of the next render frame.
    fn push_update(&mut self, update: Update) -> (r: &mut Self)
        requires
            old(self).wf(),
        ensures
            r.wf(),
            r@ == with_update(old(self)@, update),
            *final(self) == *final(r),
    {
        self.updates.push(update);
        self
    }

    /// Enable stepping for the provided schedule
    pub fn add_schedule(&mut self, schedule: InternedScheduleLabel) -> (r: &mut Self)
        requires
            old(self).wf(),
        ensures
            r.wf(),
            r@ == with_update(old(self)@, Update::AddSchedule(schedule)),
            *final(self) == *final(r),
    {
        self.push_update(Update::AddSchedule(schedule))
    }

    /// Disable stepping for the provided schedule
    ///
    /// NOTE: This function will also clear any system-specific behaviors that
    /// may have been configured.
    pub fn remove_schedule(&mut self, schedule: InternedScheduleLabel) -> (r: &mut Self)
        requires
            old(self).wf(),
        ensures
            r.wf(),
            r@ == with_update(old(self)@, Update::RemoveSchedule(schedule)),
            *final(self) == *final(r),
    {
        self.push_update(Update::RemoveSchedule(schedule))
    }

    /// Clear behavior set for all systems in the provided schedule
    pub fn clear_schedule(&mut self, schedule: InternedScheduleLabel) -> (r: &mut Self)
        requires
            old(self).wf(),
        ensures
            r.wf(),
            r@ == with_update(old(self)@, Update::ClearSchedule(schedule)),
            *final(self) == *final(r),
    {
        self.push_update(Update::ClearSchedule(schedule))
    }

    /// Begin stepping at the start of the next frame
    pub fn enable(&mut self) -> (r: &mut Self)
        requires
            old(self).wf(),
        ensures
            r.wf(),
            r@ == with_update(old(self)@, Update::SetAction(Action::Waiting)),
            *final(self) == *final(r),
    {
        self.push_update(Update::SetAction(Action::Waiting))
    }

    /// Disable stepping, resume normal systems execution
    pub fn disable(&mut self) -> (r: &mut Self)
        requires
            old(self).wf(),
        ensures
            r.wf(),
            r@ == with_update(old(self)@, Update::SetAction(Action::RunAll)),
            *final(self) == *final(r),
    {
        self.push_update(Update::SetAction(Action::RunAll))
    }

    /// Check if stepping is enabled
    pub fn is_enabled(&self) -> (r: bool)
        ensures
            r == (self@.action != Action::RunAll),
    {
        self.action != Action::RunAll
    }

    /// Run the next system during the next render frame
    ///
    /// NOTE: This will have no impact unless stepping has been enabled
    pub fn step_frame(&mut self) -> (r: &mut Self)
        requires
            old(self).wf(),
        ensures
            r.wf(),
            r@ == with_update(old(self)@, Update::SetAction(Action::Step)),
            *final(self) == *final(r),
    {
        self.push_update(Update::SetAction(Action::Step))
    }

    /// Run all remaining systems in the stepping frame during the next render
    /// frame
    ///
    /// NOTE: This will have no impact unless stepping has been enabled
    pub fn continue_frame(&mut self) -> (r: &mut Self)
        requires
            old(self).wf(),
        ensures
            r.wf(),
            r@ == with_update(old(self)@, Update::SetAction(Action::Continue)),
            *final(self) == *final(r),
    {
        self.push_update(Update::SetAction(Action::Continue))
    }

    /// Ensure this system always runs when stepping is enabled
    ///
    /// Note: if the system is run multiple times in the schedule, this
    /// will apply for all instances of the system.
    pub fn always_run(&mut self, schedule: InternedScheduleLabel, system: SystemTypeId) -> (r: &mut Self)
        requires
            old(self).wf(),
        ensures
            r.wf(),
            r@ == with_update(old(self)@, Update::SetBehavior(schedule, SystemIdentifier::Type(system), SystemBehavior::AlwaysRun)),
            *final(self) == *final(r),
    {
        self.push_update(Update::SetBehavior(schedule, SystemIdentifier::Type(system), SystemBehavior::AlwaysRun))
    }

    /// Ensure this system never runs when stepping is enabled
    pub fn never_run(&mut self, schedule: InternedScheduleLabel, system: SystemTypeId) -> (r: &mut Self)
        requires
            old(self).wf(),
        ensures
            r.wf(),
            r@ == with_update(old(self)@, Update::SetBehavior(schedule, SystemIdentifier::Type(system), SystemBehavior::NeverRun)),
            *final(self) == *final(r),
    {
        self.push_update(Update::SetBehavior(schedule, SystemIdentifier::Type(system), SystemBehavior::NeverRun))
    }

    /// Add a breakpoint for system
    pub fn set_breakpoint(&mut self, schedule: InternedScheduleLabel, system: SystemTypeId) -> (r: &mut Self)
        requires
            old(self).wf(),
        ensures
            r.wf(),
            r@ == with_update(old(self)@, Update::SetBehavior(schedule, SystemIdentifier::Type(system), SystemBehavior::Break)),
            *final(self) == *final(r),
    {
        self.push_update(Update::SetBehavior(schedule, SystemIdentifier::Type(system), SystemBehavior::Break))
    }

    /// Ensure this system instance always runs when stepping is enabled
    pub fn always_run_node(&mut self, schedule: InternedScheduleLabel, node: NodeId) -> (r: &mut Self)
        requires
            old(self).wf(),
        ensures
            r.wf(),
            r@ == with_update(old(self)@, Update::SetBehavior(schedule, SystemIdentifier::Node(node), SystemBehavior::AlwaysRun)),
            *final(self) == *final(r),
    {
        self.push_update(Update::SetBehavior(schedule, SystemIdentifier::Node(node), SystemBehavior::AlwaysRun))
    }

    /// Ensure this system instance never runs when stepping is enabled
    pub fn never_run_node(&mut self, schedule: InternedScheduleLabel, node: NodeId) -> (r: &mut Self)
        requires
            old(self).wf(),
        ensures
            r.wf(),
            r@ == with_update(old(self)@, Update::SetBehavior(schedule, SystemIdentifier::Node(node), SystemBehavior::NeverRun)),
            *final(self) == *final(r),
    {
        self.push_update(Update::SetBehavior(schedule, SystemIdentifier::Node(node), SystemBehavior::NeverRun))
    }

    /// Add a breakpoint for system instance
    pub fn set_breakpoint_node(&mut self, schedule: InternedScheduleLabel, node: NodeId) -> (r: &mut Self)
        requires
            old(self).wf(),
        ensures
            r.wf(),
            r@ == with_update(old(self)@, Update::SetBehavior(schedule, SystemIdentifier::Node(node), SystemBehavior::Break)),
            *final(self) == *final(r),
    {
        self.push_update(Update::SetBehavior(schedule, SystemIdentifier::Node(node), SystemBehavior::Break))
    }

    /// Clear any behavior set for the system
    pub fn clear_system(&mut self, schedule: InternedScheduleLabel, system: SystemTypeId) -> (r: &mut Self)
        requires
            old(self).wf(),
        ensures
            r.wf(),
            r@ == with_update(old(self)@, Update::ClearBehavior(schedule, SystemIdentifier::Type(system))),
            *final(self) == *final(r),
    {
        self.push_update(Update::ClearBehavior(schedule, SystemIdentifier::Type(system)))
    }

    /// clear a breakpoint for system instance
    pub fn clear_node(&mut self, schedule: InternedScheduleLabel, node: NodeId) -> (r: &mut Self)
        requires
            old(self).wf(),
        ensures
            r.wf(),
            r@ == with_update(old(self)@, Update::ClearBehavior(schedule, SystemIdentifier::Node(node))),
            *final(self) == *final(r),
    {
        self.push_update(Update::ClearBehavior(schedule, SystemIdentifier::Node(node)))
    }

    /// Clear a breakpoint for the system
    pub fn clear_breakpoint(&mut self, schedule: InternedScheduleLabel, system: SystemTypeId) -> (r:
        &mut Self)
        requires
            old(self).wf(),
        ensures
            r.wf(),
            r@ == with_update(old(self)@, Update::ClearBehavior(schedule, SystemIdentifier::Type(system))),
            *final(self) == *final(r),
    {
        self.clear_system(schedule, system)
    }

    /// clear a breakpoint for system instance
    pub fn clear_breakpoint_node(&mut self, schedule: InternedScheduleLabel, node: NodeId) -> (r:
        &mut Self)
        requires
            old(self).wf(),
        ensures
            r.wf(),
            r@ == with_update(old(self)@, Update::ClearBehavior(schedule, SystemIdentifier::Node(node))),
            *final(self) == *final(r),
    {
        self.clear_node(schedule, node)
    }

    /// Return the list of schedules with stepping enabled in the order
    /// they are executed in: not available until every stepped schedule has
    /// asked for a skip list.
    pub fn schedules(&self) -> (r: Result<&Vec<InternedScheduleLabel>, NotReady>)
        requires
            self.wf(),
        ensures
            r is Ok <==> self@.order.len() == self@.states.dom().len(),
            r matches Ok(v) ==> v@ == self@.order,
    {
        proof {
            self.lemma_states_len();
        }
        if self.schedule_order.len() == self.schedule_states.len() {
            Ok(&self.schedule_order)
        } else {
            Err(NotReady)
        }
    }

    /// The stepped schedules are as many as the entries that hold them.
    proof fn lemma_states_len(&self)
        requires
            self.wf(),
        ensures
            self@.states.dom().finite(),
            self@.states.dom().len() == self.schedule_states@.len(),
    {
        lemma_assoc_len(self.schedule_states@);
        assert(self@.states.dom() =~= assoc_map(self.schedule_states@).dom());
    }

    /// Returns the index of the entry holding the state of `label`, if any.
    fn find_state(&self, label: InternedScheduleLabel) -> (r: Option<usize>)
        requires
            self.wf(),
        ensures
            r is None <==> !self@.states.contains_key(label),
            r matches Some(j) ==> j < self.schedule_states@.len() && self.schedule_states@[j as int].0
                == label && self.schedule_states@[j as int].1@ == self@.states[label]
                && self.schedule_states@[j as int].1.wf(),
    {
        let r = find_key(&self.schedule_states, &label);
        proof {
            if let Some(j) = r {
                lemma_assoc_index(self.schedule_states@, j as int);
            }
        }
        r
    }

    /// Return our current position within the stepping frame
    ///
    /// NOTE: This function **will** return `None` during normal execution with
    /// stepping enabled.  This can happen at the end of the stepping frame
    /// after the last system has been run, but before the start of the next
    /// render frame.
    pub fn cursor(&self) -> (r: Option<(InternedScheduleLabel, NodeId)>)
        requires
            self.wf(),
        ensures
            r == cursor_spec(self@),
    {
        if self.action == Action::RunAll {
            return None;
        }
        if self.cursor.schedule >= self.schedule_order.len() {
            return None;
        }
        let label = self.schedule_order[self.cursor.schedule];
        match self.find_state(label) {
            None => None,
            Some(j) => {
                let state = &self.schedule_states[j].1;
                if self.cursor.system < state.node_ids.len() {
                    Some((label, NodeId::System(state.node_ids[self.cursor.system])))
                } else {
                    None
                }
            },
        }
    }

    /// lookup the first system for the supplied schedule index
    fn first_system_index_for_schedule(&self, index: usize) -> (r: usize)
        requires
            self.wf(),
        ensures
            r == first_system_index(self@, index as int),
    {
        if index >= self.schedule_order.len() {
            return 0;
        }
        let label = self.schedule_order[index];
        match self.find_state(label) {
            None => 0,
            Some(j) => match self.schedule_states[j].1.first {
                Some(f) => f,
                None => 0,
            },
        }
    }

    /// Move the cursor to the start of the first schedule
    fn reset_cursor(&mut self)
        requires
            old(self).wf(),
        ensures
            final(self).wf(),
            final(self)@ == reset_cursor_spec(old(self)@),
    {
        let system = self.first_system_index_for_schedule(0);
        self.cursor = Cursor { schedule: 0, system };
    }

    /// Replaces the state at entry `j` by `f(state)`, through `op`.
    proof fn lemma_states_update(
        ss: Seq<(InternedScheduleLabel, ScheduleState)>,
        j: int,
        st: ScheduleState,
    )
        requires
            states_wf(ss),
            0 <= j < ss.len(),
            st.wf(),
        ensures
            states_wf(ss.update(j, (ss[j].0, st))),
            state_views(ss.update(j, (ss[j].0, st))) == state_views(ss).insert(ss[j].0, st@),
    {
        let t = ss.update(j, (ss[j].0, st));
        lemma_assoc_update(ss, j, st);
        assert forall|i: int| 0 <= i < t.len() implies (#[trigger] t[i]).1.wf() by {
            if i != j {
                assert(t[i] == ss[i]);
            }
        }
        lemma_view_map_insert(assoc_map(ss), ss[j].0, st);
    }

    /// Applies one queued update.
    fn apply_update(&mut self, update: Update) -> (reset: bool)
        requires
            old(self).wf(),
            old(self)@.previous_schedule is None,
        ensures
            final(self).wf(),
            final(self)@.previous_schedule is None,
            (final(self)@, reset) == apply_update(old(self)@, update),
    {
        let ghost s0 = self@;
        match update {
            Update::SetAction(action) => {
                if action == Action::RunAll {
                    self.action = Action::RunAll;
                    return true;
                }
                // filter out invalid transitions: a call to enable() does not
                // overwrite a step or continue call, stepping must be enabled
                // before step_frame() or continue_frame(), and a pending step
                // or continue is kept.
                match (self.action, action) {
                    (Action::RunAll, Action::Waiting) => {
                        self.action = action;
                    },
                    (Action::Waiting, _) => {
                        self.action = action;
                    },
                    _ => {},
                }
                false
            },
            Update::AddSchedule(label) => {
                match self.find_state(label) {
                    Some(j) => {
                        let st = ScheduleState::new();
                        proof {
                            Self::lemma_states_update(self.schedule_states@, j as int, st);
                        }
                        self.schedule_states.set(j, (label, st));
                    },
                    None => {
                        let ghost ss = self.schedule_states@;
                        let st = ScheduleState::new();
                        self.schedule_states.push((label, st));
                        proof {
                            lemma_assoc_push(ss, label, st);
                            let t = self.schedule_states@;
                            assert forall|i: int| 0 <= i < t.len() implies (#[trigger] t[i]).1.wf() by {
                                if i < ss.len() {
                                    assert(t[i] == ss[i]);
                                }
                            }
                            lemma_view_map_insert(assoc_map(ss), label, st);
                        }
                    },
                }
                proof {
                    assert forall|i: int| 0 <= i < self@.order.len() implies self@.states.contains_key(
                        #[trigger] self@.order[i],
                    ) by {
                        assert(s0.states.contains_key(s0.order[i]));
                    }
                }
                false
            },
            Update::RemoveSchedule(label) => {
                self.remove_schedule_now(label);
                true
            },
            Update::ClearSchedule(label) => {
                match self.find_state(label) {
                    Some(j) => {
                        let ghost ss = self.schedule_states@;
                        self.schedule_states[j].1.clear_behaviors();
                        proof {
                            assert(self.schedule_states@ == ss.update(j as int, (label, self.schedule_states@[j as int].1)));
                            Self::lemma_states_update(ss, j as int, self.schedule_states@[j as int].1);
                        }
                    },
                    None => {},
                }
                false
            },
            Update::SetBehavior(label, system, behavior) => {
                match self.find_state(label) {
                    Some(j) => {
                        let ghost ss = self.schedule_states@;
                        self.schedule_states[j].1.set_behavior(system, behavior);
                        proof {
                            assert(self.schedule_states@ == ss.update(j as int, (label, self.schedule_states@[j as int].1)));
                            Self::lemma_states_update(ss, j as int, self.schedule_states@[j as int].1);
                        }
                    },
                    None => {},
                }
                false
            },
            Update::ClearBehavior(label, system) => {
                match self.find_state(label) {
                    Some(j) => {
                        let ghost ss = self.schedule_states@;
                        self.schedule_states[j].1.clear_behavior(system);
                        proof {
                            assert(self.schedule_states@ == ss.update(j as int, (label, self.schedule_states@[j as int].1)));
                            Self::lemma_states_update(ss, j as int, self.schedule_states@[j as int].1);
                        }
                    },
                    None => {},
                }
                false
            },
        }
    }

    /// Stops stepping the schedule `label`: forgets its state and its place
    /// in the order.
    fn remove_schedule_now(&mut self, label: InternedScheduleLabel)
        requires
            old(self).wf(),
            old(self)@.previous_schedule is None,
        ensures
            final(self).wf(),
            final(self)@ == (SteppingView {
                states: old(self)@.states.remove(label),
                order: without(old(self)@.order, label),
                ..old(self)@
            }),
    {
        let ghost s0 = self@;
        match self.find_state(label) {
            Some(j) => {
                let ghost ss = self.schedule_states@;
                self.schedule_states.remove(j);
                proof {
                    lemma_assoc_remove(ss, j as int);
                    let t = self.schedule_states@;
                    assert forall|i: int| 0 <= i < t.len() implies (#[trigger] t[i]).1.wf() by {
                        if i < j {
                            assert(t[i] == ss[i]);
                        } else {
                            assert(t[i] == ss[i + 1]);
                        }
                    }
                    lemma_view_map_remove(assoc_map(ss), label);
                }
            },
            None => {
                proof {
                    lemma_assoc_absent(self.schedule_states@, label);
                    assert(assoc_map(self.schedule_states@).remove(label) =~= assoc_map(self.schedule_states@));
                    lemma_view_map_remove(assoc_map(self.schedule_states@), label);
                }
            },
        }
        match position_of(&self.schedule_order, label) {
            Some(k) => {
                let ghost o = self.schedule_order@;
                self.schedule_order.remove(k);
                proof {
                    assert(o.contains(label));
                    let i = o.index_of(label);
                    assert(o[i] == label);
                    assert(i == k);
                    let t = self.schedule_order@;
                    assert(t == o.remove(k as int));
                    assert forall|a: int, b: int| 0 <= a < t.len() && 0 <= b < t.len() && a != b implies
                        t[a] != t[b] by {
                        let oa = if a < k { a } else { a + 1 };
                        let ob = if b < k { b } else { b + 1 };
                        assert(t[a] == o[oa] && t[b] == o[ob]);
                    }
                    assert forall|a: int| 0 <= a < t.len() implies self@.states.contains_key(#[trigger] t[a]) by {
                        let oa = if a < k { a } else { a + 1 };
                        assert(t[a] == o[oa]);
                        assert(s0.states.contains_key(o[oa]));
                    }
                }
            },
            None => {
                proof {
                    assert forall|a: int| 0 <= a < self@.order.len() implies self@.states.contains_key(
                        #[trigger] self@.order[a],
                    ) by {
                        assert(s0.states.contains_key(s0.order[a]));
                        assert(s0.order[a] != label);
                    }
                }
            },
        }
    }

    /// Advance schedule states for the next render frame
    pub fn next_frame(&mut self)
        requires
            old(self).wf(),
        ensures
            final(self).wf(),
            final(self)@ == next_frame_spec(old(self)@),
    {
        let ghost s0 = self@;
        // if stepping is enabled; reset our internal state for the start of
        // the next frame
        if self.action != Action::RunAll {
            self.action = Action::Waiting;
            self.previous_schedule = None;
            // if the cursor passed the last schedule, reset it
            if self.cursor.schedule >= self.schedule_order.len() {
                self.reset_cursor();
            }
        }
        if self.updates.len() == 0 {
            return;
        }
        let ghost s1 = self@;
        let mut reset_cursor = false;
        let mut i: usize = 0;
        while i < self.updates.len()
            invariant
                self.wf(),
                self@.previous_schedule is None,
                self@.updates == s1.updates,
                0 <= i <= s1.updates.len(),
                (self@, reset_cursor) == apply_updates(
                    SteppingView { updates: s1.updates, ..s1 },
                    s1.updates.take(i as int),
                ),
            decreases s1.updates.len() - i,
        {
            let update = self.updates[i];
            let reset = self.apply_update(update);
            reset_cursor = reset_cursor || reset;
            proof {
                assert(s1.updates.take(i + 1).drop_last() =~= s1.updates.take(i as int));
            }
            i = i + 1;
        }
        proof {
            assert(s1.updates.take(i as int) =~= s1.updates);
        }
        self.updates.clear();
        if reset_cursor {
            self.reset_cursor();
        }
    }

    /// System to call denoting that a new render frame has begun
    pub fn begin_frame(stepping: Option<&mut Stepping>)
        requires
            stepping matches Some(s) ==> s.wf(),
        ensures
            stepping matches Some(s) ==> final(s).wf() && final(s)@ == next_frame_spec(s@),
    {
        if let Some(stepping) = stepping {
            stepping.next_frame();
        }
    }

    /// get the list of systems this schedule should skip for this render
    /// frame: `None` while stepping is disabled or when the schedule is not
    /// stepped.
    pub fn skipped_systems(&mut self, schedule: &Schedule) -> (r: Option<FixedBitSet>)
        requires
            old(self).wf(),
            schedule.wf(),
        ensures
            final(self).wf(),
            r is None <==> (old(self)@.action == Action::RunAll || !old(self)@.states.contains_key(
                schedule.label_spec(),
            )),
            r is None ==> final(self)@ == old(self)@,
            r matches Some(skip) ==> {
                &&& fbs_wf(skip)
                &&& fbs_len(skip) == schedule.keys().len()
                &&& fbs_ones(skip) == skip_scan(
                    old(self)@,
                    schedule.label_spec(),
                    schedule.keys(),
                    schedule.types(),
                ).skip
                &&& final(self)@ == after_skipped_systems(
                    old(self)@,
                    schedule.label_spec(),
                    schedule.keys(),
                    schedule.types(),
                )
            },
    {
        let ghost s0 = self@;
        if self.action == Action::RunAll {
            return None;
        }
        // grab the label and state for this schedule
        let label = schedule.label();
        let j = match self.find_state(label) {
            Some(j) => j,
            None => {
                return None;
            },
        };
        // Stepping is enabled, and this schedule is supposed to be stepped.
        //
        // We need to maintain a list of schedules in the order that they call
        // this function. We'll check the ordered list now to see if this
        // schedule is present. If not, we'll add it after the last schedule
        // that called this function. Finally we want to save off the index of
        // this schedule in the ordered schedule list. This is used to
        // determine if this is the schedule the cursor is pointed at.
        let index = match position_of(&self.schedule_order, label) {
            Some(k) => {
                proof {
                    let i = s0.order.index_of(label);
                    assert(s0.order[k as int] == label);
                    assert(s0.order[i] == label);
                }
                k
            },
            None => {
                let order_len = self.schedule_order.len();
                let at = match self.previous_schedule {
                    None => 0,
                    Some(last) => last + 1,
                };
                self.schedule_order.insert(at, label);
                proof {
                    let o = self.schedule_order@;
                    assert(o == s0.order.insert(at as int, label));
                    assert forall|a: int, b: int| 0 <= a < o.len() && 0 <= b < o.len() && a != b implies
                        o[a] != o[b] by {
                        if a != at && b != at {
                            let oa = if a < at { a } else { a - 1 };
                            let ob = if b < at { b } else { b - 1 };
                            assert(o[a] == s0.order[oa] && o[b] == s0.order[ob]);
                        } else if a == at {
                            let ob = if b < at { b } else { b - 1 };
                            assert(o[b] == s0.order[ob]);
                        } else {
                            let oa = if a < at { a } else { a - 1 };
                            assert(o[a] == s0.order[oa]);
                        }
                    }
                    assert forall|a: int| 0 <= a < o.len() implies s0.states.contains_key(#[trigger] o[a]) by {
                        if a != at {
                            let oa = if a < at { a } else { a - 1 };
                            assert(o[a] == s0.order[oa]);
                        }
                    }
                }
                at
            },
        };
        let order_len = self.schedule_order.len();
        assert(index < order_len);
        // Update the index of the previous schedule to be the index of this
        // schedule for the next call
        self.previous_schedule = Some(index);
        // if the stepping frame cursor is pointing at this schedule, we'll run
        // the schedule with the current stepping action.  If this is not the
        // cursor schedule, we'll run the schedule with the waiting action.
        let cursor = self.cursor;
        let ghost ss = self.schedule_states@;
        let (skip_list, next_system) = if index == cursor.schedule {
            let action = self.action;
            let (skip_list, next_system) = self.schedule_states[j].1.skipped_systems(
                schedule,
                cursor.system,
                action,
            );
            // if we just stepped this schedule, then we'll switch the action
            // to be waiting
            if self.action == Action::Step {
                self.action = Action::Waiting;
            }
            (skip_list, next_system)
        } else {
            // we're not supposed to run any systems in this schedule, so pull
            // the skip list, but ignore any changes it makes to the cursor.
            let (skip_list, _) = self.schedule_states[j].1.skipped_systems(
                schedule,
                0,
                Action::Waiting,
            );
            (skip_list, Some(cursor.system))
        };
        proof {
            assert(self.schedule_states@ == ss.update(j as int, (label, self.schedule_states@[j as int].1)));
            Self::lemma_states_update(ss, j as int, self.schedule_states@[j as int].1);
        }
        // update the stepping frame cursor based on if there are any systems
        // remaining to be run in the schedule
        match next_system {
            Some(i) => {
                self.cursor = Cursor { schedule: cursor.schedule, system: i };
            },
            None => {
                let index = cursor.schedule + 1;
                let system = self.first_system_index_for_schedule(index);
                self.cursor = Cursor { schedule: index, system };
            },
        }
        Some(skip_list)
    }
}

} // verus!
