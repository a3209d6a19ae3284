//! Change ticks: the clock by which changes and spawns are dated.
use vstd::prelude::*;

verus! {

/// The (arbitrarily chosen) minimum number of world tick increments between
/// change-tick checks.
pub const CHECK_TICK_THRESHOLD: u32 = 518_400_000;

/// The maximum change tick difference that won't overflow before the next
/// change-tick check: `u32::MAX - (2 * CHECK_TICK_THRESHOLD - 1)`.
pub const MAX_CHANGE_AGE: u32 = 3_258_167_296;

/// A value that tracks when a system ran relative to other systems.
/// This is used to power change detection.
#[derive(Clone, Copy, Debug, PartialEq, Eq, Hash, Structural)]
pub struct Tick {
    tick: u32,
}

/// The number of ticks from `earlier` to `later`, on the wrapping clock.
pub open spec fn ticks_between(later: u32, earlier: u32) -> int {
    if later >= earlier {
        later - earlier
    } else {
        later - earlier + 0x1_0000_0000
    }
}

/// A number of ticks, capped at [`MAX_CHANGE_AGE`].
pub open spec fn capped_age(age: int) -> int {
    if age < MAX_CHANGE_AGE {
        age
    } else {
        MAX_CHANGE_AGE as int
    }
}

/// Whether `tick` is newer than `last_run`, seen from `this_run`: fewer ticks
/// have passed since `tick` than since `last_run`, both ages capped at
/// [`MAX_CHANGE_AGE`].
pub open spec fn newer_than(tick: u32, last_run: u32, this_run: u32) -> bool {
    capped_age(ticks_between(this_run, last_run)) > capped_age(ticks_between(this_run, tick))
}

impl Tick {
    /// The value of the tick.
    pub closed spec fn value(&self) -> u32 {
        self.tick
    }

    /// Creates a new [`Tick`] wrapping the given value.
    pub fn new(tick: u32) -> (r: Tick)
        ensures
            r.value() == tick,
    {
        Tick { tick }
    }

    /// Gets the value of this change tick.
    pub fn get(self) -> (r: u32)
        ensures
            r == self.value(),
    {
        self.tick
    }

    /// Sets the value of this change tick.
    pub fn set(&mut self, tick: u32)
        ensures
            final(self).value() == tick,
    {
        self.tick = tick;
    }

    /// Returns the number of ticks from `other` to `self`, on the wrapping
    /// clock.
    pub fn relative_to(self, other: Tick) -> (r: Tick)
        ensures
            r.value() == ticks_between(self.value(), other.value()),
    {
        Tick { tick: self.tick.wrapping_sub(other.tick) }
    }

    /// Returns `true` if this `Tick` occurred since the system's `last_run`.
    ///
    /// `this_run` is the current tick of the system, used as a reference to
    /// help deal with wraparound.
    pub fn is_newer_than(self, last_run: Tick, this_run: Tick) -> (r: bool)
        ensures
            r == newer_than(self.value(), last_run.value(), this_run.value()),
    {
        let since_insert = this_run.relative_to(self).tick;
        let ticks_since_insert = if since_insert < MAX_CHANGE_AGE {
            since_insert
        } else {
            MAX_CHANGE_AGE
        };
        let since_system = this_run.relative_to(last_run).tick;
        let ticks_since_system = if since_system < MAX_CHANGE_AGE {
            since_system
        } else {
            MAX_CHANGE_AGE
        };
        ticks_since_system > ticks_since_insert
    }
}

/// A tick is never newer than itself, and nothing is newer than a system
/// run that happens at the current tick.
pub proof fn lemma_not_newer_than_itself(tick: u32, this_run: u32)
    ensures
        !newer_than(tick, tick, this_run),
        !newer_than(tick, this_run, this_run),
{
}

/// Of two ticks within [`MAX_CHANGE_AGE`] of the current one, at most one is
/// newer than the other.
pub proof fn lemma_newer_than_asymmetric(a: u32, b: u32, this_run: u32)
    ensures
        !(newer_than(a, b, this_run) && newer_than(b, a, this_run)),
{
}

} // verus!
