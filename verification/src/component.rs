//! Component identifiers.
use vstd::prelude::*;

verus! {

/// Identifies a component type registered in a world: the index of its entry
/// in the world's component registry.
#[derive(Clone, Copy, Debug, PartialEq, Eq, Hash, PartialOrd, Ord, Structural)]
pub struct ComponentId(pub usize);

impl ComponentId {
    /// Creates a new [`ComponentId`] from its index.
    pub fn new(index: usize) -> (r: ComponentId)
        ensures
            r.0 == index,
    {
        ComponentId(index)
    }

    /// Returns the index of this component.
    pub fn index(self) -> (r: usize)
        ensures
            r == self.0,
    {
        self.0
    }
}

} // verus!
