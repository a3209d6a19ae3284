//! Errors of queries over component access.
use vstd::prelude::*;

verus! {

/// Error returned when the access of a query cannot be checked or used.
#[derive(Clone, Copy, Debug, PartialEq, Eq, Structural)]
pub enum QueryAccessError {
    /// Component was not registered on world
    ComponentNotRegistered,
    /// Entity did not have the requested components
    EntityDoesNotMatch,
}

impl QueryAccessError {
    /// The message that describes the error.
    pub fn message(&self) -> (r: &'static str)
        ensures
            *self == QueryAccessError::ComponentNotRegistered ==> r@ == "At least one component in Q was not registered in world.
                    Consider calling `World::register_component`"@,
            *self == QueryAccessError::EntityDoesNotMatch ==> r@ == "Entity does not match Q"@,
    {
        match self {
            QueryAccessError::ComponentNotRegistered => {
                "At least one component in Q was not registered in world.
                    Consider calling `World::register_component`"
            },
            QueryAccessError::EntityDoesNotMatch => "Entity does not match Q",
        }
    }
}

} // verus!
