//! Blueprints as the static export lists them: the materials of their
//! manufacturing and what it produces.

use vstd::prelude::*;
use crate::eve::type_data::TypeId;

verus! {

/// A blueprint: its materials and its product.
#[derive(Clone, Debug)]
pub struct Blueprint {
    pub type_id: TypeId,
    pub materials: Vec<Material>,
    pub produces: Option<Material>,
}

/// A material or product of a blueprint and its quantity.
#[derive(Clone, Copy, Debug, PartialEq, Eq, Structural)]
pub struct Material {
    pub quantity: u32,
    pub type_id: TypeId,
}

/// Time that an activity takes.
#[derive(Clone, Copy, Debug, PartialEq, Eq, Structural)]
pub struct TimeModel {
    time: u32,
}

/// The manufacturing activity of a blueprint.
#[derive(Clone, Debug)]
pub struct ActivityManufactoring {
    pub materials: Vec<Material>,
    pub products: Vec<Material>,
    pub time: u32,
}

impl TimeModel {
    /// Time of the activity.
    pub closed spec fn seconds(self) -> u32 {
        self.time
    }

    /// A time model of `time`.
    pub fn new(time: u32) -> (r: Self)
        ensures
            r.seconds() == time,
    {
        TimeModel { time }
    }

    /// Time of the activity.
    pub fn time(&self) -> (r: u32)
        ensures
            r == self.seconds(),
    {
        self.time
    }
}

/// The entry of the blueprint `type_id` for one key of its data: with the
/// materials and the first product of its manufacturing where the key
/// holds one, else with neither.
pub fn blueprint_entry(type_id: TypeId, manufacturing: Option<ActivityManufactoring>) -> (r: Blueprint)
    ensures
        r.type_id == type_id,
        manufacturing is None ==> r.materials@.len() == 0 && r.produces is None,
        manufacturing is Some ==> {
            let m = manufacturing->0;
            &&& r.materials@ == m.materials@
            &&& r.produces == (if m.products@.len() > 0 { Some(m.products@[0]) } else { None::<Material> })
        },
{
    match manufacturing {
        Some(m) => {
            let produces = if m.products.len() > 0 { Some(m.products[0]) } else { None };
            Blueprint { type_id, materials: m.materials, produces }
        },
        None => Blueprint { type_id, materials: Vec::new(), produces: None },
    }
}

} // verus!
