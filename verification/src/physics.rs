//! Rigid body kinds.
use vstd::prelude::*;

verus! {

/// How a rigid body takes part in the simulation.
#[derive(Clone, Copy, Debug, PartialEq, Eq, Structural)]
pub enum BodyType {
    Static,
    Dynamic,
    Kinematic,
}

impl BodyType {
    /// Only dynamic bodies have a finite mass that collisions act on; static and kinematic
    /// bodies act as immovable (zero inverse mass) and take no impulses.
    pub fn is_dynamic(self) -> (r: bool)
        ensures
            r == (self == BodyType::Dynamic),
    {
        matches!(self, BodyType::Dynamic)
    }
}

} // verus!
