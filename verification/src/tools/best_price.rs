//! Search for the best buy orders of items in a region.

use vstd::prelude::*;
use crate::eve::region_data::RegionId;

verus! {

/// Settings of a search for the best buy orders in a region.
#[derive(Clone, Copy, Debug)]
pub struct BestPrice {
    cargo_size: Option<u32>,
    region: RegionId,
}

impl BestPrice {
    /// Size of the cargo hold that the search plans with, if any.
    pub closed spec fn cargo(self) -> Option<u32> {
        self.cargo_size
    }

    /// Region that the search covers.
    pub closed spec fn region_id(self) -> RegionId {
        self.region
    }

    /// A search in `region`, without a cargo hold.
    pub fn new(region: RegionId) -> (r: Self)
        ensures
            r.cargo() is None,
            r.region_id() == region,
    {
        Self { cargo_size: None, region }
    }

    /// The same search, planning with a cargo hold of `cargo_size`.
    pub fn cargo_size(self, cargo_size: u32) -> (r: Self)
        ensures
            r.cargo() == Some(cargo_size),
            r.region_id() == self.region_id(),
    {
        let mut s = self;
        s.cargo_size = Some(cargo_size);
        s
    }

    /// Size of the cargo hold that the search plans with, if any.
    pub fn cargo_capacity(&self) -> (r: Option<u32>)
        ensures
            r == self.cargo(),
    {
        self.cargo_size
    }

    /// Region that the search covers.
    pub fn region(&self) -> (r: RegionId)
        ensures
            r == self.region_id(),
    {
        self.region
    }
}

} // verus!
