//! Regions of the universe.

use vstd::prelude::*;

verus! {

/// Id of a region.
#[derive(Clone, Copy, Debug, PartialEq, Eq, Hash, Structural)]
pub struct RegionId(pub u32);

/// A region as the universe describes it.
#[derive(Clone, Debug)]
pub struct RegionData {
    pub constellations: Vec<u32>,
    pub name: String,
    pub region_id: RegionId,
    pub description: Option<String>,
}

} // verus!
