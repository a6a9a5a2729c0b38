//! Item groups and categories.

use vstd::prelude::*;
use crate::eve::type_data::TypeId;

verus! {

/// Id of an item group.
#[derive(Clone, Copy, Debug, PartialEq, Eq, Hash, Structural)]
pub struct GroupId(pub u32);

/// Id of an item category.
#[derive(Clone, Copy, Debug, PartialEq, Eq, Hash, Structural)]
pub struct CategoryId(pub u32);

/// An item group as the universe describes it.
#[derive(Clone, Debug)]
pub struct GroupData {
    pub category_id: u32,
    pub group_id: GroupId,
    pub name: String,
    pub published: bool,
    pub types: Vec<TypeId>,
}

} // verus!
