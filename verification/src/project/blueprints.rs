//! Blueprints of a project: those that it needs and those that its
//! members own.

use vstd::prelude::*;
use crate::eve::group_data::GroupId;
use crate::eve::type_data::TypeId;
use crate::project::dependency::{in_tree, Dependency};

verus! {

/// A blueprint to be stored for a project, with what is known of it.
#[derive(Clone, Copy, Debug, PartialEq, Eq, Structural)]
pub struct ModifyBlueprintEntry {
    pub type_id: TypeId,
    pub runs: Option<i32>,
    pub me: Option<i32>,
    pub te: Option<i32>,
}

/// A blueprint that is stored for a project.
#[derive(Clone, Debug)]
pub struct BlueprintStorageEntry {
    pub ptype_id: TypeId,
    pub btype_id: TypeId,
    pub group_id: GroupId,
    pub runs: Option<i32>,
    pub me: Option<i32>,
    pub te: Option<i32>,
    pub name: String,
}

/// A blueprint that a project requires.
#[derive(Clone, Debug)]
pub struct Blueprint {
    pub type_id: TypeId,
    pub name: String,
    pub is_blueprint: bool,
    pub is_reaction: bool,
    pub is_stored: bool,
    pub iters: u32,
}

/// A blueprint that a character or its corporation owns.
#[derive(Clone, Copy, Debug, PartialEq, Eq, Structural)]
pub struct OwnedBlueprint {
    pub type_id: TypeId,
    pub material_efficiency: i32,
    pub time_efficiency: i32,
    pub runs: i32,
}

/// Position `i` holds the first owned blueprint of its type.
pub open spec fn is_first_owned(owned: Seq<OwnedBlueprint>, i: int) -> bool {
    &&& 0 <= i < owned.len()
    &&& forall|j: int| 0 <= j < i ==> owned[j].type_id != owned[i].type_id
}

/// Some owned blueprint is of the type `t`.
pub open spec fn owns(owned: Seq<OwnedBlueprint>, t: TypeId) -> bool {
    exists|i: int| 0 <= i < owned.len() && owned[i].type_id == t
}

/// The entry that stores an owned blueprint for a project.
pub open spec fn entry_for(bp: OwnedBlueprint) -> ModifyBlueprintEntry {
    ModifyBlueprintEntry {
        type_id: bp.type_id,
        runs: Some(bp.runs),
        me: Some(bp.material_efficiency),
        te: Some(bp.time_efficiency),
    }
}

/// No two entries are for the same blueprint type.
pub open spec fn distinct_entries(s: Seq<ModifyBlueprintEntry>) -> bool {
    forall|i: int, j: int| 0 <= i < j < s.len() ==> s[i].type_id != s[j].type_id
}

/// The entries that importing owned blueprints for the required blueprint
/// types stores: one per required type that is owned, taken from the
/// first owned blueprint of that type.
pub open spec fn imported(required: Seq<TypeId>, owned: Seq<OwnedBlueprint>, r: Seq<ModifyBlueprintEntry>) -> bool {
    &&& distinct_entries(r)
    &&& forall|k: int| 0 <= k < r.len() ==> {
        &&& required.contains(#[trigger] r[k].type_id)
        &&& exists|i: int| is_first_owned(owned, i) && owned[i].type_id == r[k].type_id && r[k] == entry_for(owned[i])
    }
    &&& forall|t: TypeId| required.contains(t) && owns(owned, t) ==> exists|k: int| 0 <= k < r.len() && #[trigger] r[k].type_id == t
}

/// Finds the first owned blueprint of the type `t`.
fn find_owned(owned: &Vec<OwnedBlueprint>, t: TypeId) -> (r: Option<usize>)
    ensures
        match r {
            Some(i) => is_first_owned(owned@, i as int) && owned@[i as int].type_id == t,
            None => !owns(owned@, t),
        },
{
    let mut i: usize = 0;
    while i < owned.len()
        invariant
            i <= owned.len(),
            forall|j: int| 0 <= j < i ==> owned@[j].type_id != t,
        decreases owned.len() - i,
    {
        if owned[i].type_id == t {
            return Some(i);
        }
        i += 1;
    }
    None
}

/// Chooses, for every required blueprint type that a character or its
/// corporation owns, the blueprint to store for the project: the first
/// owned one of that type, with its efficiencies and runs.
pub fn blueprints_to_import(required: &Vec<TypeId>, owned: &Vec<OwnedBlueprint>) -> (r: Vec<ModifyBlueprintEntry>)
    ensures
        imported(required@, owned@, r@),
{
    let mut res: Vec<ModifyBlueprintEntry> = Vec::new();
    let mut i: usize = 0;
    while i < required.len()
        invariant
            i <= required.len(),
            distinct_entries(res@),
            forall|k: int| 0 <= k < res.len() ==> {
                &&& required@.take(i as int).contains(#[trigger] res@[k].type_id)
                &&& exists|j: int| is_first_owned(owned@, j) && owned@[j].type_id == res@[k].type_id && res@[k] == entry_for(owned@[j])
            },
            forall|t: TypeId| required@.take(i as int).contains(t) && owns(owned@, t) ==> exists|k: int| 0 <= k < res.len() && #[trigger] res@[k].type_id == t,
        decreases required.len() - i,
    {
        let btid = required[i];
        let ghost before = res@;
        proof {
            assert(required@.take(i + 1) =~= required@.take(i as int).push(btid));
        }
        match find_owned(owned, btid) {
            Some(j) => {
                let mut present = false;
                let mut k: usize = 0;
                while k < res.len()
                    invariant
                        k <= res.len(),
                        present <==> exists|m: int| 0 <= m < k && res@[m].type_id == btid,
                    decreases res.len() - k,
                {
                    if res[k].type_id == btid {
                        present = true;
                    }
                    k += 1;
                }
                if !present {
                    let e = ModifyBlueprintEntry {
                        type_id: btid,
                        runs: Some(owned[j].runs),
                        me: Some(owned[j].material_efficiency),
                        te: Some(owned[j].time_efficiency),
                    };
                    res.push(e);
                    proof {
                        assert(res@[res.len() - 1].type_id == btid);
                        assert forall|m: int| 0 <= m < res.len() implies required@.take(i + 1).contains(#[trigger] res@[m].type_id) by {
                            if m < before.len() {
                                assert(res@[m] == before[m]);
                                let w = choose|w: int| 0 <= w < i && required@.take(i as int)[w] == before[m].type_id;
                                assert(required@.take(i + 1)[w] == before[m].type_id);
                            } else {
                                assert(required@.take(i + 1)[i as int] == btid);
                            }
                        }
                        assert forall|m: int| 0 <= m < res.len() implies exists|w: int| is_first_owned(owned@, w) && owned@[w].type_id == #[trigger] res@[m].type_id && res@[m] == entry_for(owned@[w]) by {
                            if m < before.len() {
                                assert(res@[m] == before[m]);
                            } else {
                                assert(is_first_owned(owned@, j as int));
                            }
                        }
                    }
                }
            },
            None => {},
        }
        proof {
            assert forall|t: TypeId| required@.take(i + 1).contains(t) && owns(owned@, t) implies exists|k: int| 0 <= k < res.len() && #[trigger] res@[k].type_id == t by {
                let w = choose|w: int| 0 <= w < i + 1 && #[trigger] required@.take(i + 1)[w] == t;
                if w < i {
                    assert(required@.take(i as int)[w] == t);
                    assert(required@.take(i as int).contains(t));
                    let k = choose|k: int| 0 <= k < before.len() && #[trigger] before[k].type_id == t;
                    assert(res@[k] == before[k]);
                } else {
                    assert(t == btid);
                }
            }
            assert forall|m: int| 0 <= m < res.len() implies required@.take(i + 1).contains(#[trigger] res@[m].type_id) by {
                if m < before.len() {
                    assert(res@[m] == before[m]);
                    let w = choose|w: int| 0 <= w < i && #[trigger] required@.take(i as int)[w] == before[m].type_id;
                    assert(required@.take(i + 1)[w] == before[m].type_id);
                }
            }
        }
        i += 1;
    }
    proof {
        assert(required@.take(required.len() as int) =~= required@);
    }
    res
}

/// Type ids of everything that the given build steps need, the steps
/// themselves included, step after step.
pub fn required_type_ids(dependencies: &Vec<Dependency>) -> (r: Vec<TypeId>)
    ensures
        forall|t: TypeId| #[trigger] r@.contains(t) <==> exists|i: int| 0 <= i < dependencies.len() && in_tree(#[trigger] dependencies@[i], t.0),
{
    let mut r: Vec<TypeId> = Vec::new();
    let mut i: usize = 0;
    while i < dependencies.len()
        invariant
            i <= dependencies.len(),
            forall|t: TypeId| #[trigger] r@.contains(t) <==> exists|j: int| 0 <= j < i && in_tree(#[trigger] dependencies@[j], t.0),
        decreases dependencies.len() - i,
    {
        let mut ids = dependencies[i].collect_ptype_ids();
        let ghost before = r@;
        let ghost added = ids@;
        r.append(&mut ids);
        proof {
            assert(r@ == before + added);
            assert forall|t: TypeId| #[trigger] r@.contains(t) <==> exists|j: int| 0 <= j < i + 1 && in_tree(#[trigger] dependencies@[j], t.0) by {
                if r@.contains(t) {
                    let w = choose|w: int| 0 <= w < r@.len() && r@[w] == t;
                    if w < before.len() {
                        assert(before[w] == t);
                        assert(before.contains(t));
                    } else {
                        assert(added[w - before.len()] == t);
                        assert(added.contains(t));
                    }
                }
                if exists|j: int| 0 <= j < i + 1 && in_tree(#[trigger] dependencies@[j], t.0) {
                    let j = choose|j: int| 0 <= j < i + 1 && in_tree(#[trigger] dependencies@[j], t.0);
                    if j < i {
                        assert(before.contains(t));
                        let w = choose|w: int| 0 <= w < before.len() && before[w] == t;
                        assert(r@[w] == t);
                    } else {
                        assert(added.contains(t));
                        let w = choose|w: int| 0 <= w < added.len() && added[w] == t;
                        assert(r@[before.len() + w] == t);
                    }
                }
            }
        }
        i += 1;
    }
    r
}

} // verus!
