//! Solar systems and their planets.

use vstd::prelude::*;

verus! {

/// Id of a solar system.
#[derive(Clone, Copy, Debug, PartialEq, Eq, Hash, Structural)]
pub struct SystemId(pub u32);

/// A planet with its belts and moons.
#[derive(Clone, Debug)]
pub struct Planet {
    pub asteroid_belts: Option<Vec<u32>>,
    pub moons: Option<Vec<u32>>,
    pub planet_id: u32,
}

} // verus!
