//! What the second dependency planner knows of each product: its kind and
//! the information that structure bonuses are chosen by.

use vstd::prelude::*;
use crate::structure::Structure;

verus! {

/// Name, category and group of a product.
#[derive(Clone, Debug)]
pub struct DependencyInfo {
    pub name: String,
    pub category_id: usize,
    pub group_id: usize,
}

/// How a product is made.
#[derive(Clone, Copy, Debug, PartialEq, Eq, Structural)]
pub enum BlueprintTyp {
    Blueprint,
    Reaction,
    Material,
}

/// Which kind of structure bonus a product takes.
#[derive(Clone, Copy, Debug, PartialEq, Eq, Structural)]
pub enum BonusTyp {
    Blueprint,
    Reaction,
    Material,
}

/// The structure a group of categories and groups is built in.
#[derive(Clone, Debug)]
pub struct StructureMapping {
    /// Id of the structure
    pub structure: u128,
    /// Categories and groups that it builds
    pub category_group: Vec<usize>,
}

/// What a rig of a structure gives its bonus to: products of one kind,
/// of the given categories or groups; empty lists stand for every product
/// of that kind.
#[derive(Clone, Debug)]
pub struct RigCoverage {
    pub typ: BonusTyp,
    pub categories: Vec<u32>,
    pub groups: Vec<u32>,
}

/// The rig `r` gives its bonus to a product of kind `typ`, category `c`
/// and group `g`.
pub open spec fn rig_covers(r: RigCoverage, typ: BonusTyp, c: u32, g: u32) -> bool {
    &&& r.typ == typ
    &&& {
        ||| r.categories@.len() == 0 && r.groups@.len() == 0
        ||| r.categories@.contains(c)
        ||| r.groups@.contains(g)
    }
}

/// `r` is the first position in `s` whose entry satisfies `p`, or none
/// where no entry does.
pub open spec fn is_first_index<T>(s: Seq<T>, p: spec_fn(T) -> bool, r: Option<usize>) -> bool {
    match r {
        Some(i) => {
            &&& i < s.len()
            &&& p(s[i as int])
            &&& forall|j: int| 0 <= j < i ==> !p(#[trigger] s[j])
        },
        None => forall|j: int| 0 <= j < s.len() ==> !p(#[trigger] s[j]),
    }
}

/// Whether `v` holds `x`.
fn holds_u32(v: &Vec<u32>, x: u32) -> (r: bool)
    ensures
        r == v@.contains(x),
{
    let mut i: usize = 0;
    while i < v.len()
        invariant
            i <= v.len(),
            forall|j: int| 0 <= j < i ==> v@[j] != x,
        decreases v.len() - i,
    {
        if v[i] == x {
            return true;
        }
        i += 1;
    }
    false
}

/// Whether `v` holds `x`.
fn holds_usize(v: &Vec<usize>, x: usize) -> (r: bool)
    ensures
        r == v@.contains(x),
{
    let mut i: usize = 0;
    while i < v.len()
        invariant
            i <= v.len(),
            forall|j: int| 0 <= j < i ==> v@[j] != x,
        decreases v.len() - i,
    {
        if v[i] == x {
            return true;
        }
        i += 1;
    }
    false
}

impl RigCoverage {
    /// The rig gives its bonus to a product of kind `typ`, category
    /// `category_id` and group `group_id`.
    pub fn covers(&self, typ: BonusTyp, category_id: u32, group_id: u32) -> (r: bool)
        ensures
            r == rig_covers(*self, typ, category_id, group_id),
    {
        if self.typ != typ {
            false
        } else if self.categories.len() == 0 && self.groups.len() == 0 {
            true
        } else if holds_u32(&self.categories, category_id) {
            true
        } else {
            holds_u32(&self.groups, group_id)
        }
    }
}

/// The rig of a structure that applies to a product of kind `typ`,
/// category `category_id` and group `group_id`: the first one that covers
/// it.
pub fn covering_rig(rigs: &Vec<RigCoverage>, typ: BonusTyp, category_id: u32, group_id: u32) -> (r: Option<usize>)
    ensures
        is_first_index(rigs@, |x: RigCoverage| rig_covers(x, typ, category_id, group_id), r),
{
    let mut i: usize = 0;
    while i < rigs.len()
        invariant
            i <= rigs.len(),
            forall|j: int| 0 <= j < i ==> !rig_covers(#[trigger] rigs@[j], typ, category_id, group_id),
        decreases rigs.len() - i,
    {
        if rigs[i].covers(typ, category_id, group_id) {
            return Some(i);
        }
        i += 1;
    }
    None
}

/// The mapping `m` sends a product of category `c` or group `g` to its
/// structure.
pub open spec fn maps_product(m: StructureMapping, c: usize, g: usize) -> bool {
    m.category_group@.contains(c) || m.category_group@.contains(g)
}

/// The structure that a product of category `category_id` and group
/// `group_id` is built in: that of the first mapping that lists its
/// category or its group.
pub fn mapped_structure(mapping: &Vec<StructureMapping>, category_id: usize, group_id: usize) -> (r: Option<u128>)
    ensures
        match r {
            Some(id) => exists|i: int| {
                &&& 0 <= i < mapping.len()
                &&& maps_product(mapping@[i], category_id, group_id)
                &&& mapping@[i].structure == id
                &&& forall|j: int| 0 <= j < i ==> !maps_product(#[trigger] mapping@[j], category_id, group_id)
            },
            None => forall|j: int| 0 <= j < mapping.len() ==> !maps_product(#[trigger] mapping@[j], category_id, group_id),
        },
{
    let mut i: usize = 0;
    while i < mapping.len()
        invariant
            i <= mapping.len(),
            forall|j: int| 0 <= j < i ==> !maps_product(#[trigger] mapping@[j], category_id, group_id),
        decreases mapping.len() - i,
    {
        if holds_usize(&mapping[i].category_group, category_id) || holds_usize(&mapping[i].category_group, group_id) {
            assert(maps_product(mapping@[i as int], category_id, group_id));
            return Some(mapping[i].structure);
        }
        i += 1;
    }
    None
}

/// Position of the structure with the id `id`: the first one.
pub fn structure_by_id(structures: &Vec<Structure>, id: u128) -> (r: Option<usize>)
    ensures
        is_first_index(structures@, |s: Structure| s.id == id, r),
{
    let mut i: usize = 0;
    while i < structures.len()
        invariant
            i <= structures.len(),
            forall|j: int| 0 <= j < i ==> (#[trigger] structures@[j]).id != id,
        decreases structures.len() - i,
    {
        if structures[i].id == id {
            return Some(i);
        }
        i += 1;
    }
    None
}

} // verus!
