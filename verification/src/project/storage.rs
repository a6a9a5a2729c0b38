//! Items that are stored for a project.

use vstd::prelude::*;
use crate::eve::group_data::GroupId;
use crate::eve::type_data::TypeId;

verus! {

/// How a modification changes the stored quantity.
#[derive(Clone, Copy, Debug, PartialEq, Eq, Structural)]
pub enum ModifyMode {
    /// Adds the items
    Add,
    /// Sets the items to the given quantity
    Replace,
}

/// Represents a modification of a single item.
#[derive(Clone, Copy, Debug, PartialEq, Eq, Structural)]
pub struct Modify {
    /// TypeId that should be modified
    pub type_id: TypeId,
    /// When positive the quantity is added, if negative it is subtracted
    pub quantity: i64,
}

/// Represents a modification request.
#[derive(Clone, Debug)]
pub struct ModifyRequest {
    /// Mode that should be used
    pub mode: ModifyMode,
    /// Entries that should be modified
    pub entries: Vec<Modify>,
}

/// Represents an entry of a stored item.
#[derive(Clone, Debug)]
pub struct StorageEntry {
    /// Id of the item
    pub type_id: TypeId,
    /// Item group
    pub group_id: GroupId,
    /// Quantity that is stored
    pub quantity: i64,
    /// Name of the item
    pub name: String,
}

impl ModifyRequest {
    /// The request adds its quantities to what is stored, rather than
    /// replacing it.
    pub fn adds(&self) -> (r: bool)
        ensures
            r == (self.mode == ModifyMode::Add),
    {
        match self.mode {
            ModifyMode::Add => true,
            ModifyMode::Replace => false,
        }
    }

    /// The type ids and the quantities of the entries, as two columns in
    /// the order of the entries.
    pub fn columns(&self) -> (r: (Vec<u32>, Vec<i64>))
        ensures
            r.0.len() == self.entries.len(),
            r.1.len() == self.entries.len(),
            forall|i: int| 0 <= i < self.entries.len() ==> r.0@[i] == (#[trigger] self.entries@[i]).type_id.0,
            forall|i: int| 0 <= i < self.entries.len() ==> r.1@[i] == (#[trigger] self.entries@[i]).quantity,
    {
        let mut ids: Vec<u32> = Vec::new();
        let mut quantities: Vec<i64> = Vec::new();
        let mut i: usize = 0;
        while i < self.entries.len()
            invariant
                i <= self.entries.len(),
                ids.len() == i,
                quantities.len() == i,
                forall|j: int| 0 <= j < i ==> ids@[j] == (#[trigger] self.entries@[j]).type_id.0,
                forall|j: int| 0 <= j < i ==> quantities@[j] == (#[trigger] self.entries@[j]).quantity,
            decreases self.entries.len() - i,
        {
            ids.push(self.entries[i].type_id.0);
            quantities.push(self.entries[i].quantity);
            i += 1;
        }
        (ids, quantities)
    }
}

} // verus!
