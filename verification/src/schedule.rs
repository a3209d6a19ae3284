//! Schedules: labelled, ordered collections of systems, and the registry that
//! maps each label to its schedule while tracking schedules lent out to run.
use crate::assoc::{
    assoc_map, find_key, has_key, keys_unique, lemma_assoc_absent, lemma_assoc_empty,
    lemma_assoc_index, lemma_assoc_push, lemma_assoc_remove, lemma_assoc_update, Key,
};
use crate::component_id_set::ComponentIdSet;
use crate::node::SystemKey;
use vstd::prelude::*;

verus! {

/// An interned schedule label: the identity of a schedule.
#[derive(Clone, Copy, Debug, PartialEq, Eq, Hash, PartialOrd, Ord, Structural)]
pub struct InternedScheduleLabel(pub u64);

/// Identifies the type of a system (the function or closure it was built from).
#[derive(Clone, Copy, Debug, PartialEq, Eq, Hash, PartialOrd, Ord, Structural)]
pub struct SystemTypeId(pub u64);

impl Key for InternedScheduleLabel {
    fn key_eq(&self, other: &Self) -> (r: bool) {
        self.0 == other.0
    }
}

impl Key for SystemTypeId {
    fn key_eq(&self, other: &Self) -> (r: bool) {
        self.0 == other.0
    }
}

/// The systems of a schedule, in the order in which its executor runs them.
pub struct Schedule {
    label: InternedScheduleLabel,
    system_ids: Vec<SystemKey>,
    system_types: Vec<SystemTypeId>,
}

impl Schedule {
    /// The schedule's label.
    pub closed spec fn label_spec(&self) -> InternedScheduleLabel {
        self.label
    }

    /// The node keys of the systems, in executable order.
    pub closed spec fn keys(&self) -> Seq<SystemKey> {
        self.system_ids@
    }

    /// The types of the systems, in executable order.
    pub closed spec fn types(&self) -> Seq<SystemTypeId> {
        self.system_types@
    }

    /// Creates a schedule with no system.
    pub fn new(label: InternedScheduleLabel) -> (r: Schedule)
        ensures
            r.wf(),
            r.label_spec() == label,
            r.keys().len() == 0,
            r.types().len() == 0,
    {
        Schedule { label, system_ids: Vec::new(), system_types: Vec::new() }
    }

    /// Appends a system to the executable order.
    pub fn add_system(&mut self, key: SystemKey, system_type: SystemTypeId)
        requires
            old(self).wf(),
        ensures
            final(self).wf(),
            final(self).label_spec() == old(self).label_spec(),
            final(self).keys() == old(self).keys().push(key),
            final(self).types() == old(self).types().push(system_type),
    {
        self.system_ids.push(key);
        self.system_types.push(system_type);
    }

    /// Returns the schedule's label.
    pub fn label(&self) -> (r: InternedScheduleLabel)
        ensures
            r == self.label_spec(),
    {
        self.label
    }

    /// Returns the number of systems.
    pub fn systems_len(&self) -> (r: usize)
        ensures
            r == self.keys().len(),
    {
        self.system_ids.len()
    }

    /// Returns the node keys of the systems, in executable order.
    pub fn system_ids(&self) -> (r: &Vec<SystemKey>)
        ensures
            r@ == self.keys(),
    {
        &self.system_ids
    }

    /// Returns the types of the systems, in executable order.
    pub fn system_types(&self) -> (r: &Vec<SystemTypeId>)
        ensures
            r@ == self.types(),
    {
        &self.system_types
    }

    /// There is one type per system key.
    pub open spec fn wf(&self) -> bool {
        self.keys().len() == self.types().len()
    }
}


/// Returns the position of `label` in `labels`, if it occurs there.
fn label_position(labels: &Vec<InternedScheduleLabel>, label: InternedScheduleLabel) -> (r: Option<
    usize,
>)
    ensures
        r matches Some(i) ==> i < labels@.len() && labels@[i as int] == label,
        r is None ==> !labels@.contains(label),
{
    let mut i: usize = 0;
    while i < labels.len()
        invariant
            0 <= i <= labels@.len(),
            forall|j: int| 0 <= j < i ==> #[trigger] labels@[j] != label,
        decreases labels@.len() - i,
    {
        if labels[i].0 == label.0 {
            return Some(i);
        }
        i = i + 1;
    }
    None
}

/// Adds `label` to a list of distinct labels, unless it is already there.
fn insert_label(labels: &mut Vec<InternedScheduleLabel>, label: InternedScheduleLabel)
    requires
        old(labels)@.no_duplicates(),
    ensures
        final(labels)@.no_duplicates(),
        final(labels)@.to_set() == old(labels)@.to_set().insert(label),
{
    match label_position(labels, label) {
        Some(_) => {
            assert(labels@.to_set().insert(label) =~= labels@.to_set());
        },
        None => {
            let ghost before = labels@;
            labels.push(label);
            assert forall|i: int, j: int|
                0 <= i < labels@.len() && 0 <= j < labels@.len() && i != j implies labels@[i]
                != labels@[j] by {
                if i < before.len() && j < before.len() {
                    assert(before[i] == labels@[i] && before[j] == labels@[j]);
                } else if i < before.len() {
                    assert(before[i] == labels@[i]);
                    assert(before.contains(labels@[i]));
                } else {
                    assert(before[j] == labels@[j]);
                    assert(before.contains(labels@[j]));
                }
            }
            assert forall|x: InternedScheduleLabel| #[trigger]
                labels@.to_set().contains(x) == before.to_set().insert(label).contains(x) by {
                if labels@.contains(x) {
                    let k = choose|k: int| 0 <= k < labels@.len() && labels@[k] == x;
                    if k < before.len() {
                        assert(before[k] == x);
                    }
                }
                if before.contains(x) {
                    let k = choose|k: int| 0 <= k < before.len() && before[k] == x;
                    assert(labels@[k] == x);
                }
                if x == label {
                    assert(labels@[before.len() as int] == label);
                }
            }
            assert(labels@.to_set() =~= before.to_set().insert(label));
        },
    }
}

/// Takes `label` out of a list of distinct labels, if it is there.
fn remove_label(labels: &mut Vec<InternedScheduleLabel>, label: InternedScheduleLabel)
    requires
        old(labels)@.no_duplicates(),
    ensures
        final(labels)@.no_duplicates(),
        final(labels)@.to_set() == old(labels)@.to_set().remove(label),
{
    match label_position(labels, label) {
        Some(i) => {
            let ghost before = labels@;
            labels.remove(i);
            assert forall|a: int, b: int|
                0 <= a < labels@.len() && 0 <= b < labels@.len() && a != b implies labels@[a]
                != labels@[b] by {
                let oa = if a < i { a } else { a + 1 };
                let ob = if b < i { b } else { b + 1 };
                assert(labels@[a] == before[oa]);
                assert(labels@[b] == before[ob]);
            }
            assert forall|x: InternedScheduleLabel| #[trigger]
                labels@.to_set().contains(x) == before.to_set().remove(label).contains(x) by {
                if labels@.contains(x) {
                    let k = choose|k: int| 0 <= k < labels@.len() && labels@[k] == x;
                    let ok = if k < i { k } else { k + 1 };
                    assert(before[ok] == x);
                    assert(ok != i);
                }
                if before.contains(x) && x != label {
                    let k = choose|k: int| 0 <= k < before.len() && before[k] == x;
                    assert(k != i);
                    let nk = if k < i { k } else { k - 1 };
                    assert(labels@[nk] == x);
                }
            }
            assert(labels@.to_set() =~= before.to_set().remove(label));
        },
        None => {
            assert(labels@.to_set().remove(label) =~= labels@.to_set());
        },
    }
}

/// Copies a list of labels.
fn copy_labels(labels: &Vec<InternedScheduleLabel>) -> (r: Vec<InternedScheduleLabel>)
    ensures
        r@ == labels@,
{
    let mut r: Vec<InternedScheduleLabel> = Vec::new();
    let mut i: usize = 0;
    while i < labels.len()
        invariant
            0 <= i <= labels@.len(),
            r@ == labels@.subrange(0, i as int),
        decreases labels@.len() - i,
    {
        r.push(labels[i]);
        i = i + 1;
        assert(r@ =~= labels@.subrange(0, i as int));
    }
    assert(labels@.subrange(0, labels@.len() as int) =~= labels@);
    r
}

/// The abstract state of a [`Schedules`] registry.
pub ghost struct SchedulesView {
    /// The schedule stored under each label.
    pub schedules: Map<InternedScheduleLabel, Schedule>,
    /// Labels whose schedule was taken out to run and not put back yet.
    pub temporarily_removed: Set<InternedScheduleLabel>,
    /// Labels that were asked for to run while no schedule was stored under
    /// them.
    pub empty_labels: Set<InternedScheduleLabel>,
    /// Components ignored when reporting system order ambiguities.
    pub ignored_ambiguities: Set<usize>,
}

/// The registry after `schedule` was stored under `label`, which ends any
/// temporary removal of `label`.
pub open spec fn stored_view(v: SchedulesView, label: InternedScheduleLabel, schedule: Schedule) -> SchedulesView {
    SchedulesView {
        schedules: v.schedules.insert(label, schedule),
        temporarily_removed: v.temporarily_removed.remove(label),
        empty_labels: v.empty_labels,
        ignored_ambiguities: v.ignored_ambiguities,
    }
}

/// The registry after the schedule of `label` was taken out to run: a stored
/// schedule is marked as temporarily removed, a missing one as empty.
pub open spec fn taken_view(v: SchedulesView, label: InternedScheduleLabel) -> SchedulesView {
    if v.schedules.contains_key(label) {
        SchedulesView {
            schedules: v.schedules.remove(label),
            temporarily_removed: v.temporarily_removed.insert(label),
            empty_labels: v.empty_labels.remove(label),
            ignored_ambiguities: v.ignored_ambiguities,
        }
    } else {
        SchedulesView {
            schedules: v.schedules,
            temporarily_removed: v.temporarily_removed,
            empty_labels: v.empty_labels.insert(label),
            ignored_ambiguities: v.ignored_ambiguities,
        }
    }
}

/// The registry with `schedule` stored under `label` in place of what was
/// there, its label lists unchanged.
pub open spec fn replaced_view(v: SchedulesView, label: InternedScheduleLabel, schedule: Schedule) -> SchedulesView {
    SchedulesView { schedules: v.schedules.insert(label, schedule), ..v }
}

/// The registry after the schedule of `label` was dropped from it.
pub open spec fn dropped_view(v: SchedulesView, label: InternedScheduleLabel) -> SchedulesView {
    SchedulesView { schedules: v.schedules.remove(label), ..v }
}

/// Stores the [`Schedule`]s of a world, each under its label, apart from those
/// taken out to run.
pub struct Schedules {
    inner: Vec<(InternedScheduleLabel, Schedule)>,
    /// Components to ignore when reporting system order ambiguity conflicts.
    pub ingnored_scheduling_ambiguities: ComponentIdSet,
    temporarily_removed: Vec<InternedScheduleLabel>,
    empty_labels: Vec<InternedScheduleLabel>,
}

impl View for Schedules {
    type V = SchedulesView;

    closed spec fn view(&self) -> SchedulesView {
        SchedulesView {
            schedules: assoc_map(self.inner@),
            temporarily_removed: self.temporarily_removed@.to_set(),
            empty_labels: self.empty_labels@.to_set(),
            ignored_ambiguities: self.ingnored_scheduling_ambiguities@,
        }
    }
}

impl Schedules {
    /// The components ignored when reporting ambiguities.
    pub closed spec fn ignored_ambiguities(&self) -> ComponentIdSet {
        self.ingnored_scheduling_ambiguities
    }

    /// Each label occurs once in each of the registry's lists.
    pub closed spec fn wf(&self) -> bool {
        &&& keys_unique(self.inner@)
        &&& self.temporarily_removed@.no_duplicates()
        &&& self.empty_labels@.no_duplicates()
    }

    /// Constructs an empty `Schedules`.
    pub fn new() -> (r: Self)
        ensures
            r.wf(),
            r@.schedules == Map::<InternedScheduleLabel, Schedule>::empty(),
            r@.temporarily_removed == Set::<InternedScheduleLabel>::empty(),
            r@.empty_labels == Set::<InternedScheduleLabel>::empty(),
            r.ignored_ambiguities().wf(),
            r.ignored_ambiguities()@ == Set::<usize>::empty(),
            r@.ignored_ambiguities == Set::<usize>::empty(),
    {
        let r = Schedules {
            inner: Vec::new(),
            ingnored_scheduling_ambiguities: ComponentIdSet::new(),
            temporarily_removed: Vec::new(),
            empty_labels: Vec::new(),
        };
        proof {
            lemma_assoc_empty(r.inner@);
            assert(r.temporarily_removed@.to_set() =~= Set::empty());
            assert(r.empty_labels@.to_set() =~= Set::empty());
        }
        r
    }

    /// Stores `schedule` under `label` and returns the schedule stored there
    /// before, if any.
    fn store(&mut self, label: InternedScheduleLabel, schedule: Schedule) -> (r: Option<Schedule>)
        requires
            old(self).wf(),
        ensures
            final(self).wf(),
            final(self)@.schedules == old(self)@.schedules.insert(label, schedule),
            final(self)@.temporarily_removed == old(self)@.temporarily_removed,
            final(self)@.empty_labels == old(self)@.empty_labels,
            final(self)@.ignored_ambiguities == old(self)@.ignored_ambiguities,
            r == (if old(self)@.schedules.contains_key(label) {
                Some(old(self)@.schedules[label])
            } else {
                None::<Schedule>
            }),
    {
        let ghost before = self.inner@;
        match find_key(&self.inner, &label) {
            Some(i) => {
                proof {
                    lemma_assoc_index(before, i as int);
                    lemma_assoc_remove(before, i as int);
                }
                let (_, previous) = self.inner.remove(i);
                proof {
                    let t = before.remove(i as int);
                    assert(t == self.inner@);
                    assert(!has_key(t, label)) by {
                        if has_key(t, label) {
                            let j = choose|j: int| 0 <= j < t.len() && t[j].0 == label;
                            let oj = if j < i { j } else { j + 1 };
                            assert(before[oj].0 == label);
                            assert(oj != i);
                        }
                    }
                    lemma_assoc_push(t, label, schedule);
                    assert(assoc_map(before).remove(label).insert(label, schedule) =~= assoc_map(
                        before,
                    ).insert(label, schedule));
                }
                self.inner.push((label, schedule));
                Some(previous)
            },
            None => {
                proof {
                    lemma_assoc_push(before, label, schedule);
                }
                self.inner.push((label, schedule));
                None
            },
        }
    }

    /// Takes the schedule stored under `label` out of the registry, with its
    /// stored label.
    fn take(&mut self, label: InternedScheduleLabel) -> (r: Option<(InternedScheduleLabel, Schedule)>)
        requires
            old(self).wf(),
        ensures
            final(self).wf(),
            final(self)@ == dropped_view(old(self)@, label),
            r == (if old(self)@.schedules.contains_key(label) {
                Some((label, old(self)@.schedules[label]))
            } else {
                None::<(InternedScheduleLabel, Schedule)>
            }),
    {
        let ghost before = self.inner@;
        match find_key(&self.inner, &label) {
            Some(i) => {
                proof {
                    lemma_assoc_index(before, i as int);
                    lemma_assoc_remove(before, i as int);
                }
                let entry = self.inner.remove(i);
                Some(entry)
            },
            None => {
                proof {
                    lemma_assoc_absent(before, label);
                    assert(assoc_map(before).remove(label) =~= assoc_map(before));
                }
                None
            },
        }
    }

    /// Inserts a labeled schedule into the map.
    ///
    /// If the map already had an entry for the schedule's label, `schedule` is
    /// inserted, and the old schedule is returned. Otherwise, `None` is
    /// returned.
    pub fn insert(&mut self, schedule: Schedule) -> (r: Option<Schedule>)
        requires
            old(self).wf(),
        ensures
            final(self).wf(),
            final(self)@ == stored_view(old(self)@, schedule.label_spec(), schedule),
            r == (if old(self)@.schedules.contains_key(schedule.label_spec()) {
                Some(old(self)@.schedules[schedule.label_spec()])
            } else {
                None::<Schedule>
            }),
    {
        let label = schedule.label();
        remove_label(&mut self.temporarily_removed, label);
        self.store(label, schedule)
    }

    /// Puts a labeled schedule back into the map, ending its temporary removal.
    ///
    /// If the map already had an entry for the schedule's label, `schedule` is
    /// inserted, and the old schedule is returned. Otherwise, `None` is
    /// returned.
    pub fn reinsert(&mut self, schedule: Schedule) -> (r: Option<Schedule>)
        requires
            old(self).wf(),
        ensures
            final(self).wf(),
            final(self)@ == stored_view(old(self)@, schedule.label_spec(), schedule),
            r == (if old(self)@.schedules.contains_key(schedule.label_spec()) {
                Some(old(self)@.schedules[schedule.label_spec()])
            } else {
                None::<Schedule>
            }),
    {
        let label = schedule.label();
        remove_label(&mut self.temporarily_removed, label);
        self.store(label, schedule)
    }

    /// Removes the schedule corresponding to the `label` from the map,
    /// returning it if it existed.
    pub fn remove(&mut self, label: InternedScheduleLabel) -> (r: Option<Schedule>)
        requires
            old(self).wf(),
        ensures
            final(self).wf(),
            final(self)@ == dropped_view(old(self)@, label),
            r == (if old(self)@.schedules.contains_key(label) {
                Some(old(self)@.schedules[label])
            } else {
                None::<Schedule>
            }),
    {
        match self.take(label) {
            Some((_, schedule)) => Some(schedule),
            None => None,
        }
    }

    /// Removes the schedule corresponding to the `label` from the map to run
    /// it, returning it if it existed: the label is then tracked as
    /// temporarily removed, or else as empty.
    pub fn remove_temporarily(&mut self, label: InternedScheduleLabel) -> (r: Option<Schedule>)
        requires
            old(self).wf(),
        ensures
            final(self).wf(),
            final(self)@ == taken_view(old(self)@, label),
            r == (if old(self)@.schedules.contains_key(label) {
                Some(old(self)@.schedules[label])
            } else {
                None::<Schedule>
            }),
    {
        let ghost before = self@;
        let k = self.remove(label);
        if k.is_some() {
            insert_label(&mut self.temporarily_removed, label);
            remove_label(&mut self.empty_labels, label);
        } else {
            insert_label(&mut self.empty_labels, label);
            assert(before.schedules.remove(label) =~= before.schedules);
        }
        k
    }

    /// Removes the (label, schedule) pair corresponding to the `label` from
    /// the map, returning it if it existed.
    pub fn remove_entry(&mut self, label: InternedScheduleLabel) -> (r: Option<(InternedScheduleLabel, Schedule)>)
        requires
            old(self).wf(),
        ensures
            final(self).wf(),
            final(self)@ == dropped_view(old(self)@, label),
            r == (if old(self)@.schedules.contains_key(label) {
                Some((label, old(self)@.schedules[label]))
            } else {
                None::<(InternedScheduleLabel, Schedule)>
            }),
    {
        self.take(label)
    }

    /// Gets the labels of the temporarily removed schedules, each once.
    pub fn get_temporarily_removed(&self) -> (r: Vec<InternedScheduleLabel>)
        requires
            self.wf(),
        ensures
            r@.no_duplicates(),
            r@.to_set() == self@.temporarily_removed,
    {
        copy_labels(&self.temporarily_removed)
    }

    /// Gets the labels asked for while empty, each once.
    pub fn get_empty_labels(&self) -> (r: Vec<InternedScheduleLabel>)
        requires
            self.wf(),
        ensures
            r@.no_duplicates(),
            r@.to_set() == self@.empty_labels,
    {
        copy_labels(&self.empty_labels)
    }

    /// Does a schedule with the provided label already exist?
    pub fn contains(&self, label: InternedScheduleLabel) -> (r: bool)
        requires
            self.wf(),
        ensures
            r == self@.schedules.contains_key(label),
    {
        match find_key(&self.inner, &label) {
            Some(i) => {
                proof {
                    lemma_assoc_index(self.inner@, i as int);
                }
                true
            },
            None => {
                proof {
                    lemma_assoc_absent(self.inner@, label);
                }
                false
            },
        }
    }

    /// Returns a mutable reference to the schedule associated with `label`,
    /// if it exists.
    pub fn get_mut(&mut self, label: InternedScheduleLabel) -> (r: Option<&mut Schedule>)
        requires
            old(self).wf(),
        ensures
            final(self).wf(),
            match r {
                Some(s) => {
                    &&& old(self)@.schedules.contains_key(label)
                    &&& *s == old(self)@.schedules[label]
                    &&& final(self)@ == replaced_view(old(self)@, label, *final(s))
                },
                None => !old(self)@.schedules.contains_key(label) && final(self)@ == old(self)@,
            },
    {
        let ghost before = self.inner@;
        match find_key(&self.inner, &label) {
            Some(i) => {
                proof {
                    lemma_assoc_index(before, i as int);
                }
                let entry = &mut self.inner[i];
                let r = &mut entry.1;
                proof {
                    lemma_assoc_update(before, i as int, *final(r));
                }
                Some(r)
            },
            None => {
                proof {
                    lemma_assoc_absent(before, label);
                }
                None
            },
        }
    }

    /// Returns a mutable reference to the schedule associated with `label`,
    /// storing a new empty schedule under it first if there is none.
    pub fn entry(&mut self, label: InternedScheduleLabel) -> (r: &mut Schedule)
        requires
            old(self).wf(),
        ensures
            final(self).wf(),
            old(self)@.schedules.contains_key(label) ==> *r == old(self)@.schedules[label],
            !old(self)@.schedules.contains_key(label) ==> {
                &&& r.wf()
                &&& r.label_spec() == label
                &&& r.keys().len() == 0
                &&& r.types().len() == 0
            },
            final(self)@ == replaced_view(old(self)@, label, *final(r)),
    {
        let ghost before = self.inner@;
        let i = match find_key(&self.inner, &label) {
            Some(i) => i,
            None => {
                let fresh = Schedule::new(label);
                proof {
                    lemma_assoc_push(before, label, fresh);
                }
                self.inner.push((label, fresh));
                self.inner.len() - 1
            },
        };
        let ghost mid = self.inner@;
        proof {
            lemma_assoc_index(mid, i as int);
        }
        let entry = &mut self.inner[i];
        let r = &mut entry.1;
        proof {
            lemma_assoc_update(mid, i as int, *final(r));
            if !has_key(before, label) {
                assert(assoc_map(before).insert(label, mid[i as int].1).insert(label, *final(r))
                    =~= assoc_map(before).insert(label, *final(r)));
            }
        }
        r
    }

    /// Returns a reference to the schedule associated with `label`, if it
    /// exists.
    pub fn get(&self, label: InternedScheduleLabel) -> (r: Option<&Schedule>)
        requires
            self.wf(),
        ensures
            r == (if self@.schedules.contains_key(label) {
                Some(&self@.schedules[label])
            } else {
                None::<&Schedule>
            }),
    {
        match find_key(&self.inner, &label) {
            Some(i) => {
                proof {
                    lemma_assoc_index(self.inner@, i as int);
                }
                Some(&self.inner[i].1)
            },
            None => {
                proof {
                    lemma_assoc_absent(self.inner@, label);
                }
                None
            },
        }
    }
}

impl Default for Schedules {
    fn default() -> (r: Self)
        ensures
            r.wf(),
            r@.schedules == Map::<InternedScheduleLabel, Schedule>::empty(),
            r@.temporarily_removed == Set::<InternedScheduleLabel>::empty(),
            r@.empty_labels == Set::<InternedScheduleLabel>::empty(),
            r@.ignored_ambiguities == Set::<usize>::empty(),
    {
        Schedules::new()
    }
}

/// Taking the schedule stored under `label` out to run and reinserting it
/// gives back the stored schedules as they were; afterwards `label` is neither
/// temporarily removed nor empty.
pub proof fn lemma_take_then_reinsert(v: SchedulesView, label: InternedScheduleLabel)
    requires
        v.schedules.contains_key(label),
        v.schedules[label].label_spec() == label,
    ensures
        ({
            let s = v.schedules[label];
            let back = stored_view(taken_view(v, label), s.label_spec(), s);
            &&& back.schedules == v.schedules
            &&& back.temporarily_removed == v.temporarily_removed.remove(label)
            &&& back.empty_labels == v.empty_labels.remove(label)
            &&& back.ignored_ambiguities == v.ignored_ambiguities
        }),
{
    let s = v.schedules[label];
    let back = stored_view(taken_view(v, label), s.label_spec(), s);
    assert(back.schedules =~= v.schedules);
    assert(back.temporarily_removed =~= v.temporarily_removed.remove(label));
}

} // verus!
