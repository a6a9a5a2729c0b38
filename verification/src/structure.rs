//! Player structures: their kind, the security of their system and the
//! item categories and groups that their rigs cover.

use vstd::prelude::*;
use vstd::std_specs::convert::FromSpecImpl;

verus! {

/// Determines in what security status the system is located in.
#[derive(Clone, Copy, Debug, PartialEq, Eq, Structural)]
pub enum Security {
    Highsec,
    Lowsec,
    Nullsec,
}

/// Kinds of bonus that the dogma of a rig modifies.
#[derive(Clone, Copy, Debug, PartialEq, Eq, Structural)]
pub enum StructureBonusModifier {
    ManufactureMaterial,
    ManufactureTime,
    ReactionMaterial,
    ReactionTime,
}

/// Engineering complexes and refineries, and a kind for every other type.
#[derive(Clone, Copy, Debug, PartialEq, Eq, Structural)]
pub enum StructureType {
    /// Type 35835
    Athanor,
    /// Type 35836
    Tatara,
    /// Type 35825
    Raitaru,
    /// Type 35826
    Azbel,
    /// Type 35827
    Sotiyo,
    Invalid,
}

/// The structure kind of an item type id.
pub open spec fn structure_type_of(x: i32) -> StructureType {
    if x == 35835 {
        StructureType::Athanor
    } else if x == 35836 {
        StructureType::Tatara
    } else if x == 35825 {
        StructureType::Raitaru
    } else if x == 35826 {
        StructureType::Azbel
    } else if x == 35827 {
        StructureType::Sotiyo
    } else {
        StructureType::Invalid
    }
}

impl From<i32> for StructureType {
    fn from(x: i32) -> (r: Self) {
        match x {
            35835 => StructureType::Athanor,
            35836 => StructureType::Tatara,
            35825 => StructureType::Raitaru,
            35826 => StructureType::Azbel,
            35827 => StructureType::Sotiyo,
            _ => StructureType::Invalid,
        }
    }
}

impl FromSpecImpl<i32> for StructureType {
    open spec fn obeys_from_spec() -> bool {
        true
    }

    open spec fn from_spec(v: i32) -> StructureType {
        structure_type_of(v)
    }
}

/// Each kind of structure, as `StructureType::from` gives it, comes from
/// exactly one type id: an Athanor from 35835, a Tatara from 35836, a
/// Raitaru from 35825, an Azbel from 35826 and a Sotiyo from 35827; every
/// other id gives `Invalid`.
pub proof fn structure_kinds_by_type_id(x: i32)
    ensures
        (structure_type_of(x) == StructureType::Athanor) <==> x == 35835,
        (structure_type_of(x) == StructureType::Tatara) <==> x == 35836,
        (structure_type_of(x) == StructureType::Raitaru) <==> x == 35825,
        (structure_type_of(x) == StructureType::Azbel) <==> x == 35826,
        (structure_type_of(x) == StructureType::Sotiyo) <==> x == 35827,
        (structure_type_of(x) == StructureType::Invalid) <==> (x != 35835 && x != 35836 && x != 35825
            && x != 35826 && x != 35827),
{
}

/// The item categories and groups that a rig gives its bonus to.
#[derive(Clone, Debug, Default)]
pub struct StructureRig {
    /// Categories and groups; an empty list stands for all of them
    pub category_groups: Vec<usize>,
}

impl StructureRig {
    /// The rig covers `cg`: it covers everything, or `cg` is in its list.
    pub fn has_category_or_group(&self, cg: usize) -> (r: bool)
        ensures
            r == (self.category_groups.len() == 0 || self.category_groups@.contains(cg)),
    {
        if self.category_groups.len() == 0 {
            return true;
        }
        let mut i: usize = 0;
        while i < self.category_groups.len()
            invariant
                i <= self.category_groups.len(),
                forall|j: int| 0 <= j < i ==> self.category_groups@[j] != cg,
            decreases self.category_groups.len() - i,
        {
            if self.category_groups[i] == cg {
                return true;
            }
            i += 1;
        }
        false
    }
}

/// The rig `r` covers a product of category `c` or of group `g`.
pub open spec fn rig_covers_product(r: StructureRig, c: usize, g: usize) -> bool {
    r.category_groups.len() == 0 || r.category_groups@.contains(c) || r.category_groups@.contains(g)
}

/// The lists of categories and groups of all rigs, one after another.
pub open spec fn all_category_groups(rigs: Seq<StructureRig>) -> Seq<usize>
    decreases rigs.len(),
{
    if rigs.len() == 0 {
        Seq::empty()
    } else {
        all_category_groups(rigs.drop_last()) + rigs.last().category_groups@
    }
}

/// Represents a structure with all its installed rigs.
#[derive(Clone, Debug)]
pub struct Structure {
    /// Internal id of the structure
    pub id: u128,
    /// Name of the structure
    pub name: String,
    /// Location of the structure
    pub system: String,
    /// Security of the location the structure is in
    pub security: Security,
    /// Type of structure
    pub structure: StructureType,
    /// List of all rigs that are in the structure
    pub rigs: Vec<StructureRig>,
}

impl Structure {
    /// A structure with the given fields.
    pub fn new(
        id: u128,
        name: String,
        system: String,
        security: Security,
        structure: StructureType,
        rigs: Vec<StructureRig>,
    ) -> (r: Self)
        ensures
            r.id == id,
            r.name == name,
            r.system == system,
            r.security == security,
            r.structure == structure,
            r.rigs == rigs,
    {
        Structure { id, name, system, security, structure, rigs }
    }

    /// The categories and groups that the rigs of the structure cover,
    /// rig after rig.
    pub fn category_groups(&self) -> (r: Vec<usize>)
        ensures
            r@ == all_category_groups(self.rigs@),
    {
        let mut r: Vec<usize> = Vec::new();
        let mut i: usize = 0;
        while i < self.rigs.len()
            invariant
                i <= self.rigs.len(),
                r@ == all_category_groups(self.rigs@.take(i as int)),
            decreases self.rigs.len() - i,
        {
            let ghost before = r@;
            let cg = &self.rigs[i].category_groups;
            let mut j: usize = 0;
            while j < cg.len()
                invariant
                    j <= cg.len(),
                    r@ == before + cg@.take(j as int),
                decreases cg.len() - j,
            {
                r.push(cg[j]);
                proof {
                    assert(cg@.take(j + 1) =~= cg@.take(j as int).push(cg@[j as int]));
                }
                j += 1;
            }
            proof {
                assert(cg@.take(cg.len() as int) =~= cg@);
                assert(self.rigs@.take(i + 1).drop_last() =~= self.rigs@.take(i as int));
            }
            i += 1;
        }
        proof {
            assert(self.rigs@.take(self.rigs.len() as int) =~= self.rigs@);
        }
        r
    }
}

impl Structure {
    /// The rig that gives its bonus to a product of category `category_id`
    /// and group `group_id`: the first one that covers either.
    pub fn rig_for(&self, category_id: usize, group_id: usize) -> (r: Option<usize>)
        ensures
            match r {
                Some(i) => {
                    &&& i < self.rigs.len()
                    &&& rig_covers_product(self.rigs@[i as int], category_id, group_id)
                    &&& forall|j: int| 0 <= j < i ==> !rig_covers_product(#[trigger] self.rigs@[j], category_id, group_id)
                },
                None => forall|j: int| 0 <= j < self.rigs.len() ==> !rig_covers_product(#[trigger] self.rigs@[j], category_id, group_id),
            },
    {
        let mut i: usize = 0;
        while i < self.rigs.len()
            invariant
                i <= self.rigs.len(),
                forall|j: int| 0 <= j < i ==> !rig_covers_product(#[trigger] self.rigs@[j], category_id, group_id),
            decreases self.rigs.len() - i,
        {
            if self.rigs[i].has_category_or_group(category_id) || self.rigs[i].has_category_or_group(group_id) {
                return Some(i);
            }
            i += 1;
        }
        None
    }
}

/// A row of the dogma of a rig: which bonus it modifies, and the item
/// categories and groups that it gives it to.
#[derive(Clone, Debug)]
pub struct RigDogmaRow {
    pub modifier: StructureBonusModifier,
    pub categories: Vec<i32>,
    pub groups: Vec<i32>,
}

/// The categories and then the groups of a dogma row, as unsigned ids.
pub open spec fn row_category_groups(r: RigDogmaRow) -> Seq<usize> {
    r.categories@.map_values(|x: i32| x as usize) + r.groups@.map_values(|x: i32| x as usize)
}

/// The categories and groups that a rig covers: those of the first of its
/// dogma rows that names any.
pub open spec fn rig_category_groups(rows: Seq<RigDogmaRow>) -> Seq<usize>
    decreases rows.len(),
{
    if rows.len() == 0 {
        Seq::empty()
    } else {
        let acc = rig_category_groups(rows.drop_last());
        if acc.len() == 0 {
            row_category_groups(rows.last())
        } else {
            acc
        }
    }
}

/// The dogma row modifies a material bonus.
pub open spec fn is_material_row(r: RigDogmaRow) -> bool {
    r.modifier == StructureBonusModifier::ManufactureMaterial || r.modifier == StructureBonusModifier::ReactionMaterial
}

/// The categories and then the groups of a dogma row, as unsigned ids.
fn row_ids(r: &RigDogmaRow) -> (v: Vec<usize>)
    ensures
        v@ == row_category_groups(*r),
{
    let mut v: Vec<usize> = Vec::new();
    let mut i: usize = 0;
    while i < r.categories.len()
        invariant
            i <= r.categories.len(),
            v@ == r.categories@.take(i as int).map_values(|x: i32| x as usize),
        decreases r.categories.len() - i,
    {
        v.push(r.categories[i] as usize);
        assert(r.categories@.take(i + 1).map_values(|x: i32| x as usize) =~= r.categories@.take(i as int).map_values(|x: i32| x as usize).push(r.categories@[i as int] as usize));
        i += 1;
    }
    assert(r.categories@.take(r.categories.len() as int) =~= r.categories@);
    let ghost cats = v@;
    let mut j: usize = 0;
    while j < r.groups.len()
        invariant
            j <= r.groups.len(),
            v@ == cats + r.groups@.take(j as int).map_values(|x: i32| x as usize),
        decreases r.groups.len() - j,
    {
        v.push(r.groups[j] as usize);
        assert(r.groups@.take(j + 1).map_values(|x: i32| x as usize) =~= r.groups@.take(j as int).map_values(|x: i32| x as usize).push(r.groups@[j as int] as usize));
        assert(cats + r.groups@.take(j + 1).map_values(|x: i32| x as usize) =~= (cats + r.groups@.take(j as int).map_values(|x: i32| x as usize)).push(r.groups@[j as int] as usize));
        j += 1;
    }
    assert(r.groups@.take(r.groups.len() as int) =~= r.groups@);
    v
}

impl StructureRig {
    /// A rig from the rows of its dogma: it covers the categories and
    /// groups of the first row that names any.
    pub fn from_dogma(rows: &Vec<RigDogmaRow>) -> (r: Self)
        ensures
            r.category_groups@ == rig_category_groups(rows@),
    {
        let mut cg: Vec<usize> = Vec::new();
        let mut i: usize = 0;
        while i < rows.len()
            invariant
                i <= rows.len(),
                cg@ == rig_category_groups(rows@.take(i as int)),
            decreases rows.len() - i,
        {
            assert(rows@.take(i + 1).drop_last() =~= rows@.take(i as int));
            if cg.len() == 0 {
                cg = row_ids(&rows[i]);
            }
            i += 1;
        }
        assert(rows@.take(rows.len() as int) =~= rows@);
        StructureRig { category_groups: cg }
    }
}

/// The dogma row whose bonus amount a rig keeps for the material bonus
/// (`material`) or for the time bonus: the last one of that kind.
pub fn last_bonus_row(rows: &Vec<RigDogmaRow>, material: bool) -> (r: Option<usize>)
    ensures
        match r {
            Some(i) => i < rows.len() && is_material_row(rows@[i as int]) == material
                && forall|j: int| i < j < rows.len() ==> is_material_row(#[trigger] rows@[j]) != material,
            None => forall|j: int| 0 <= j < rows.len() ==> is_material_row(#[trigger] rows@[j]) != material,
        },
{
    let mut i: usize = rows.len();
    while i > 0
        invariant
            i <= rows.len(),
            forall|j: int| i <= j < rows.len() ==> is_material_row(#[trigger] rows@[j]) != material,
        decreases i,
    {
        let m = match rows[i - 1].modifier {
            StructureBonusModifier::ManufactureMaterial => true,
            StructureBonusModifier::ReactionMaterial => true,
            StructureBonusModifier::ManufactureTime => false,
            StructureBonusModifier::ReactionTime => false,
        };
        if m == material {
            return Some(i - 1);
        }
        i -= 1;
    }
    None
}

/// The rigs installed in the three rig slots of a structure, in slot
/// order.
pub fn installed_rigs(rig0: Option<i32>, rig1: Option<i32>, rig2: Option<i32>) -> (r: Vec<i32>)
    ensures
        r@ == seq![rig0, rig1, rig2].filter(|x: Option<i32>| x is Some).map_values(|x: Option<i32>| x->0),
{
    let mut r: Vec<i32> = Vec::new();
    if let Some(x) = rig0 {
        r.push(x);
    }
    if let Some(x) = rig1 {
        r.push(x);
    }
    if let Some(x) = rig2 {
        r.push(x);
    }
    proof {
        let s = seq![rig0, rig1, rig2];
        reveal_with_fuel(Seq::filter, 4);
        assert(s.drop_last().drop_last().drop_last() =~= Seq::<Option<i32>>::empty());
        assert(s.drop_last().drop_last() =~= seq![rig0]);
        assert(s.drop_last() =~= seq![rig0, rig1]);
    }
    assert(r@ =~= seq![rig0, rig1, rig2].filter(|x: Option<i32>| x is Some).map_values(|x: Option<i32>| x->0));
    r
}

/// The structure API: a marker for the routes that it serves.
#[derive(Clone, Copy, Debug)]
pub struct StructureApi;

} // verus!
