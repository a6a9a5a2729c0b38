//! Item types and their dogma.

use vstd::prelude::*;

verus! {

/// Id of a dogma attribute.
#[derive(Clone, Copy, Debug, PartialEq, Eq, Structural)]
pub struct AttributeId(pub u32);

/// Id of an item type.
#[derive(Clone, Copy, Debug, PartialEq, Eq, Hash, Structural)]
pub struct TypeId(pub u32);

/// A dogma effect of an item type.
#[derive(Clone, Copy, Debug, PartialEq, Eq, Structural)]
pub struct DogmaEffects {
    pub effect_id: u32,
    pub is_default: bool,
}

} // verus!
