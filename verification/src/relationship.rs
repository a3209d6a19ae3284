//! Relationships between entities: the conditions under which their hooks
//! run.
use vstd::prelude::*;

verus! {

/// Configures the conditions under which the Relationship insert/discard
/// hooks will be run.
#[derive(Clone, Copy, Debug, PartialEq, Eq, Structural)]
pub enum RelationshipHookMode {
    /// Relationship insert/discard hooks will always run
    Run,
    /// Relationship insert/discard hooks will run if the relationship target
    /// does not despawn its sources with it (is not linked-spawn)
    RunIfNotLinked,
    /// Relationship insert/discard hooks will always be skipped
    Skip,
}

impl RelationshipHookMode {
    /// Returns whether the relationship hooks run in this mode, for a
    /// relationship whose target is linked-spawn exactly when `linked_spawn`.
    pub fn hooks_run(self, linked_spawn: bool) -> (r: bool)
        ensures
            r == match self {
                RelationshipHookMode::Run => true,
                RelationshipHookMode::RunIfNotLinked => !linked_spawn,
                RelationshipHookMode::Skip => false,
            },
    {
        match self {
            RelationshipHookMode::Run => true,
            RelationshipHookMode::RunIfNotLinked => !linked_spawn,
            RelationshipHookMode::Skip => false,
        }
    }
}

} // verus!
