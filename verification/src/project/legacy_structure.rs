//! Structure descriptions of the first project planner: security classes,
//! structure kinds, their sizes and the rigs that were known to it.

use vstd::prelude::*;

verus! {

/// Security class of the system that a structure stands in.
#[derive(Clone, Copy, Debug, PartialEq, Eq, Structural)]
pub enum Security {
    Highsec,
    Lowsec,
    Nullsec,
}

/// Size class of a structure.
#[derive(Clone, Copy, Debug, PartialEq, Eq, Structural)]
pub enum StructureSize {
    M,
    L,
    XL,
}

/// Engineering complexes and refineries.
#[derive(Clone, Copy, Debug, PartialEq, Eq, Structural)]
pub enum StructureType {
    /// Type 35835
    Athanor,
    /// Type 35836
    Tatara,
    /// Type 35825
    Raitaru,
    /// Type 35826
    Azbel,
    /// Type 35827
    Sotiyo,
}

/// The size class of each structure kind.
pub open spec fn structure_size(t: StructureType) -> StructureSize {
    match t {
        StructureType::Athanor => StructureSize::M,
        StructureType::Tatara => StructureSize::L,
        StructureType::Raitaru => StructureSize::M,
        StructureType::Azbel => StructureSize::L,
        StructureType::Sotiyo => StructureSize::XL,
    }
}

impl StructureType {
    /// Gets the size of the structure.
    pub fn size(&self) -> (r: StructureSize)
        ensures
            r == structure_size(*self),
    {
        match self {
            StructureType::Athanor => StructureSize::M,
            StructureType::Tatara => StructureSize::L,
            StructureType::Raitaru => StructureSize::M,
            StructureType::Azbel => StructureSize::L,
            StructureType::Sotiyo => StructureSize::XL,
        }
    }
}

/// Rigs that can be installed on a structure.
#[derive(Clone, Copy, Debug, PartialEq, Eq, Structural)]
pub enum StructureRig {
    /// Type 46497, for large refineries
    ReactorEfficiencyII,
    /// Type 37174
    AdvancedComponentManufacturingEfficiencyI,
    /// Type 37173
    CapitalShipManufacturingEfficiencyI,
    /// Type 43718
    CapitalComponentManufacturingEfficiencyI,
}

/// The item groups that each rig gives its bonus to.
pub open spec fn rig_groups(rig: StructureRig) -> Seq<usize> {
    match rig {
        StructureRig::ReactorEfficiencyII => seq![428usize, 429, 712, 974, 4096],
        StructureRig::AdvancedComponentManufacturingEfficiencyI => seq![332usize, 334, 716, 913, 964],
        StructureRig::CapitalShipManufacturingEfficiencyI => seq![485usize, 547, 883, 1538],
        StructureRig::CapitalComponentManufacturingEfficiencyI => seq![873usize],
    }
}

impl StructureRig {
    /// The rig gives its bonus to the item group `group`.
    pub fn has_group(&self, group: usize) -> (r: bool)
        ensures
            r == rig_groups(*self).contains(group),
    {
        let groups: Vec<usize> = match self {
            StructureRig::ReactorEfficiencyII => vec![428, 429, 712, 974, 4096],
            StructureRig::AdvancedComponentManufacturingEfficiencyI => vec![332, 334, 716, 913, 964],
            StructureRig::CapitalShipManufacturingEfficiencyI => vec![485, 547, 883, 1538],
            StructureRig::CapitalComponentManufacturingEfficiencyI => vec![873],
        };
        assert(groups@ =~= rig_groups(*self));
        let mut i: usize = 0;
        while i < groups.len()
            invariant
                i <= groups.len(),
                groups@ == rig_groups(*self),
                forall|j: int| 0 <= j < i ==> groups@[j] != group,
            decreases groups.len() - i,
        {
            if groups[i] == group {
                assert(rig_groups(*self)[i as int] == group);
                return true;
            }
            i += 1;
        }
        false
    }
}

} // verus!
