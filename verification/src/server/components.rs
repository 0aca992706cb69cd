use vstd::prelude::*;

verus! {

/// Marks an entity that the physics solver moves.
pub struct PhysicsEntity;

/// Marks an entity that falls.
pub struct Gravity;

} // verus!
