//! Regions that hold stations, and the routes between two systems.

use vstd::prelude::*;

verus! {

/// A region id as the station table stores it.
#[derive(Clone, Debug)]
pub struct RegionId {
    pub region_id: i32,
}

/// A route between two systems, with the systems on the way.
#[derive(Clone, Debug)]
pub struct Route {
    pub origin: i32,
    pub destination: i32,
    pub systems: Vec<i32>,
    pub flag: String,
}

/// The kinds of route that the EVE API plans.
#[derive(Clone, Copy, Debug, PartialEq, Eq, Structural)]
pub enum RouteFlag {
    Shortest,
    Secure,
    Insecure,
}

/// The region ids of the rows, each read as an unsigned id.
pub fn region_ids(rows: &Vec<RegionId>) -> (r: Vec<u32>)
    ensures
        r.len() == rows.len(),
        forall|i: int| 0 <= i < rows.len() ==> r@[i] == rows@[i].region_id as u32,
{
    let mut r: Vec<u32> = Vec::new();
    let mut i: usize = 0;
    while i < rows.len()
        invariant
            i <= rows.len(),
            r.len() == i,
            forall|j: int| 0 <= j < i ==> r@[j] == rows@[j].region_id as u32,
        decreases rows.len() - i,
    {
        r.push(rows[i].region_id as u32);
        i += 1;
    }
    r
}

/// The kinds of route that still have to be fetched, given how many routes
/// between the two systems are stored: all three where none is, else none.
pub fn routes_to_fetch(stored: usize) -> (r: Vec<RouteFlag>)
    ensures
        stored == 0 ==> r@ == seq![RouteFlag::Shortest, RouteFlag::Secure, RouteFlag::Insecure],
        stored != 0 ==> r@ == Seq::<RouteFlag>::empty(),
{
    let mut r: Vec<RouteFlag> = Vec::new();
    if stored == 0 {
        r.push(RouteFlag::Shortest);
        r.push(RouteFlag::Secure);
        r.push(RouteFlag::Insecure);
    }
    r
}

} // verus!
