//! When an entity was spawned, as a query sees it.
use crate::change_detection::{newer_than, Tick};
use vstd::prelude::*;

verus! {

/// Reports when an entity was spawned, relative to the run of the system
/// that queries it.
#[derive(Clone, Copy, Debug, PartialEq, Eq, Structural)]
pub struct SpawnDetails {
    spawn_tick: Tick,
    last_run: Tick,
    this_run: Tick,
}

impl SpawnDetails {
    /// The tick the entity spawned at.
    pub closed spec fn spawn_tick_spec(&self) -> Tick {
        self.spawn_tick
    }

    /// The tick of the previous run of the querying system.
    pub closed spec fn last_run_spec(&self) -> Tick {
        self.last_run
    }

    /// The tick of the current run of the querying system.
    pub closed spec fn this_run_spec(&self) -> Tick {
        self.this_run
    }

    /// The details of an entity spawned at `spawn_tick`, seen by a system
    /// that last ran at `last_run` and now runs at `this_run`.
    pub fn new(spawn_tick: Tick, last_run: Tick, this_run: Tick) -> (r: SpawnDetails)
        ensures
            r.spawn_tick_spec() == spawn_tick,
            r.last_run_spec() == last_run,
            r.this_run_spec() == this_run,
    {
        SpawnDetails { spawn_tick, last_run, this_run }
    }

    /// Returns `true` if the entity spawned since the last time this system
    /// ran. Otherwise, returns `false`.
    pub fn is_spawned(self) -> (r: bool)
        ensures
            r == newer_than(
                self.spawn_tick_spec().value(),
                self.last_run_spec().value(),
                self.this_run_spec().value(),
            ),
    {
        self.is_spawned_after(self.last_run)
    }

    /// Returns `true` if the entity spawned after the `other` tick.
    /// Otherwise, returns `false`.
    pub fn is_spawned_after(self, other: Tick) -> (r: bool)
        ensures
            r == newer_than(self.spawn_tick_spec().value(), other.value(), self.this_run_spec().value()),
    {
        self.spawn_tick.is_newer_than(other, self.this_run)
    }

    /// Returns the `Tick` this entity spawned at.
    pub fn spawn_tick(self) -> (r: Tick)
        ensures
            r == self.spawn_tick_spec(),
    {
        self.spawn_tick
    }
}

} // verus!
