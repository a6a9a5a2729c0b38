//! Assets of a character, grouped by item type and location.

use vstd::prelude::*;

verus! {

/// A single asset as the EVE API lists it for a character.
#[derive(Clone, Debug)]
pub struct EveAsset {
    pub item_id: u64,
    pub location_id: u64,
    pub location_flag: String,
    pub quantity: u32,
    pub type_id: u32,
}

/// A location that holds assets of one type, with their quantity.
#[derive(Clone, Debug)]
pub struct AssetLocation {
    pub item_id: u64,
    pub quantity: u32,
    pub typ: String,
}

/// All assets of one type: their item ids, total quantity and locations.
#[derive(Clone, Debug)]
pub struct CharacterAsset {
    pub item_ids: Vec<u64>,
    pub quantity: u32,
    pub type_id: u32,
    pub locations: Vec<AssetLocation>,
}

/// Item ids of the assets of type `t`, in order.
pub open spec fn type_items(s: Seq<EveAsset>, t: u32) -> Seq<u64>
    decreases s.len(),
{
    if s.len() == 0 {
        Seq::empty()
    } else if s.last().type_id == t {
        type_items(s.drop_last(), t).push(s.last().item_id)
    } else {
        type_items(s.drop_last(), t)
    }
}

/// Total quantity of the assets of type `t`.
pub open spec fn type_quantity(s: Seq<EveAsset>, t: u32) -> int
    decreases s.len(),
{
    if s.len() == 0 {
        0
    } else if s.last().type_id == t {
        type_quantity(s.drop_last(), t) + s.last().quantity
    } else {
        type_quantity(s.drop_last(), t)
    }
}

/// Total quantity of the assets of type `t` at the location `l`.
pub open spec fn location_quantity(s: Seq<EveAsset>, t: u32, l: u64) -> int
    decreases s.len(),
{
    if s.len() == 0 {
        0
    } else if s.last().type_id == t && s.last().location_id == l {
        location_quantity(s.drop_last(), t, l) + s.last().quantity
    } else {
        location_quantity(s.drop_last(), t, l)
    }
}

/// The locations of the assets of type `t`, each once, in the order that
/// they first occur.
pub open spec fn type_locations(s: Seq<EveAsset>, t: u32) -> Seq<u64>
    decreases s.len(),
{
    if s.len() == 0 {
        Seq::empty()
    } else {
        let before = type_locations(s.drop_last(), t);
        if s.last().type_id == t && !before.contains(s.last().location_id) {
            before.push(s.last().location_id)
        } else {
            before
        }
    }
}

/// The location flag of the first asset of type `t` at the location `l`.
pub open spec fn location_flag(s: Seq<EveAsset>, t: u32, l: u64) -> Seq<char>
    decreases s.len(),
{
    if s.len() == 0 {
        Seq::empty()
    } else if s.last().type_id == t && s.last().location_id == l && !type_locations(s.drop_last(), t).contains(l) {
        s.last().location_flag@
    } else {
        location_flag(s.drop_last(), t, l)
    }
}

/// Some asset is of type `t`.
pub open spec fn has_type(s: Seq<EveAsset>, t: u32) -> bool {
    exists|i: int| 0 <= i < s.len() && s[i].type_id == t
}

/// `g` describes the assets of its type in `s`: their item ids in order,
/// their total quantity, and their locations in the order of first
/// occurrence, each with the quantity there and the flag of its first
/// asset.
pub open spec fn describes(s: Seq<EveAsset>, g: CharacterAsset) -> bool {
    let t = g.type_id;
    &&& has_type(s, t)
    &&& g.item_ids@ == type_items(s, t)
    &&& g.quantity == type_quantity(s, t)
    &&& g.locations.len() == type_locations(s, t).len()
    &&& forall|m: int| 0 <= m < g.locations.len() ==> {
        &&& (#[trigger] g.locations@[m]).item_id == type_locations(s, t)[m]
        &&& g.locations@[m].quantity == location_quantity(s, t, type_locations(s, t)[m])
        &&& g.locations@[m].typ@ == location_flag(s, t, type_locations(s, t)[m])
    }
}

/// `r` groups the assets `s` by type: one description per type that
/// occurs, and no other.
pub open spec fn grouped(s: Seq<EveAsset>, r: Seq<CharacterAsset>) -> bool {
    &&& forall|i: int, j: int| 0 <= i < j < r.len() ==> r[i].type_id != r[j].type_id
    &&& forall|k: int| 0 <= k < r.len() ==> describes(s, #[trigger] r[k])
    &&& forall|t: u32| has_type(s, t) ==> exists|k: int| 0 <= k < r.len() && #[trigger] r[k].type_id == t
}

/// The quantity of every type, summed over all assets, fits in `u32`.
pub open spec fn quantities_fit(s: Seq<EveAsset>) -> bool {
    forall|t: u32| type_quantity(s, t) <= u32::MAX
}

proof fn lemma_absent_type(s: Seq<EveAsset>, t: u32, l: u64)
    requires
        !has_type(s, t),
    ensures
        type_items(s, t) == Seq::<u64>::empty(),
        type_quantity(s, t) == 0,
        type_locations(s, t) == Seq::<u64>::empty(),
        location_quantity(s, t, l) == 0,
    decreases s.len(),
{
    if s.len() > 0 {
        assert(!has_type(s.drop_last(), t)) by {
            if has_type(s.drop_last(), t) {
                let i = choose|i: int| 0 <= i < s.drop_last().len() && s.drop_last()[i].type_id == t;
                assert(s[i].type_id == t);
            }
        }
        assert(s[s.len() - 1].type_id != t);
        lemma_absent_type(s.drop_last(), t, l);
    }
}

proof fn lemma_absent_location(s: Seq<EveAsset>, t: u32, l: u64)
    requires
        !type_locations(s, t).contains(l),
    ensures
        location_quantity(s, t, l) == 0,
    decreases s.len(),
{
    if s.len() > 0 {
        let before = type_locations(s.drop_last(), t);
        if before.contains(l) {
            let w = choose|w: int| 0 <= w < before.len() && before[w] == l;
            if s.last().type_id == t && !before.contains(s.last().location_id) {
                assert(type_locations(s, t)[w] == l);
            }
            assert(false);
        }
        if s.last().type_id == t && s.last().location_id == l {
            assert(type_locations(s, t) == before.push(l));
            assert(type_locations(s, t)[before.len() as int] == l);
        }
        lemma_absent_location(s.drop_last(), t, l);
    }
}

proof fn lemma_quantity_bounds(s: Seq<EveAsset>, t: u32, l: u64, i: int)
    requires
        0 <= i <= s.len(),
    ensures
        type_quantity(s.take(i), t) <= type_quantity(s, t),
        location_quantity(s, t, l) <= type_quantity(s, t),
        0 <= location_quantity(s, t, l),
    decreases s.len(),
{
    if s.len() > 0 {
        if i == s.len() {
            assert(s.take(i) =~= s);
        } else {
            assert(s.drop_last().take(i) =~= s.take(i));
            lemma_quantity_bounds(s.drop_last(), t, l, i);
        }
        lemma_quantity_bounds(s.drop_last(), t, l, 0);
    }
}

proof fn lemma_locations_distinct(s: Seq<EveAsset>, t: u32)
    ensures
        type_locations(s, t).no_duplicates(),
    decreases s.len(),
{
    if s.len() > 0 {
        lemma_locations_distinct(s.drop_last(), t);
    }
}

/// A description of the assets of another type is not affected by one
/// more asset.
proof fn lemma_other_type(p: Seq<EveAsset>, a: EveAsset, g: CharacterAsset)
    requires
        describes(p, g),
        g.type_id != a.type_id,
    ensures
        describes(p.push(a), g),
{
    let q = p.push(a);
    let t = g.type_id;
    assert(q.drop_last() =~= p);
    assert(type_items(q, t) == type_items(p, t));
    assert(type_quantity(q, t) == type_quantity(p, t));
    assert(type_locations(q, t) == type_locations(p, t));
    assert forall|l: u64| location_quantity(q, t, l) == location_quantity(p, t, l) && location_flag(q, t, l) == location_flag(p, t, l) by {}
    let i = choose|i: int| 0 <= i < p.len() && p[i].type_id == t;
    assert(q[i].type_id == t);
}

/// Adds one more asset of the type that `g` describes.
fn add_to_group(g: &mut CharacterAsset, a: &EveAsset, Ghost(p): Ghost<Seq<EveAsset>>)
    requires
        describes(p, *old(g)),
        a.type_id == old(g).type_id,
        type_quantity(p.push(*a), a.type_id) <= u32::MAX,
    ensures
        describes(p.push(*a), *final(g)),
        final(g).type_id == old(g).type_id,
{
    let ghost q = p.push(*a);
    let ghost t = a.type_id;
    proof {
        assert(q.drop_last() =~= p);
        assert(q.last() == *a);
        lemma_quantity_bounds(q, t, a.location_id, q.len() as int);
    }
    let mut m: usize = 0;
    while m < g.locations.len() && g.locations[m].item_id != a.location_id
        invariant
            m <= g.locations.len(),
            forall|j: int| 0 <= j < m ==> g.locations@[j].item_id != a.location_id,
        decreases g.locations.len() - m,
    {
        m += 1;
    }
    let found = m < g.locations.len();
    g.item_ids.push(a.item_id);
    g.quantity = g.quantity + a.quantity;
    let ghost locs = type_locations(p, t);
    if found {
        proof {
            assert(locs[m as int] == a.location_id);
            assert(locs.contains(a.location_id));
            lemma_locations_distinct(p, t);
            assert(type_locations(q, t) == locs);
            lemma_quantity_bounds(q, t, a.location_id, q.len() as int);
        }
        let add = g.locations[m].quantity + a.quantity;
        g.locations[m].quantity = add;
        proof {
            assert forall|j: int| 0 <= j < g.locations.len() implies {
                &&& (#[trigger] g.locations@[j]).item_id == type_locations(q, t)[j]
                &&& g.locations@[j].quantity == location_quantity(q, t, type_locations(q, t)[j])
                &&& g.locations@[j].typ@ == location_flag(q, t, type_locations(q, t)[j])
            } by {
                if j != m {
                    assert(locs[j] != a.location_id) by {
                        assert(old(g).locations@[j].item_id == locs[j]);
                    }
                }
            }
        }
    } else {
        proof {
            assert(!locs.contains(a.location_id)) by {
                if locs.contains(a.location_id) {
                    let w = choose|w: int| 0 <= w < locs.len() && locs[w] == a.location_id;
                    assert(old(g).locations@[w].item_id == locs[w]);
                    assert(g.locations@[w].item_id == a.location_id);
                }
            }
            lemma_absent_location(p, t, a.location_id);
            assert(type_locations(q, t) == locs.push(a.location_id));
            lemma_quantity_bounds(q, t, a.location_id, q.len() as int);
        }
        g.locations.push(AssetLocation {
            item_id: a.location_id,
            quantity: a.quantity,
            typ: a.location_flag.clone(),
        });
        proof {
            assert forall|j: int| 0 <= j < g.locations.len() implies {
                &&& (#[trigger] g.locations@[j]).item_id == type_locations(q, t)[j]
                &&& g.locations@[j].quantity == location_quantity(q, t, type_locations(q, t)[j])
                &&& g.locations@[j].typ@ == location_flag(q, t, type_locations(q, t)[j])
            } by {
                if j < locs.len() {
                    assert(locs[j] != a.location_id);
                }
            }
        }
    }
    proof {
        let i = choose|i: int| 0 <= i < p.len() && p[i].type_id == t;
        assert(q[i].type_id == t);
    }
}

/// Groups the assets of a character by type: for every type its item ids,
/// its total quantity and its locations, each with the quantity there.
pub fn group_assets(assets: &Vec<EveAsset>) -> (r: Vec<CharacterAsset>)
    requires
        quantities_fit(assets@),
    ensures
        grouped(assets@, r@),
{
    let mut res: Vec<CharacterAsset> = Vec::new();
    let mut i: usize = 0;
    while i < assets.len()
        invariant
            i <= assets.len(),
            quantities_fit(assets@),
            grouped(assets@.take(i as int), res@),
        decreases assets.len() - i,
    {
        let a = &assets[i];
        let ghost p = assets@.take(i as int);
        let ghost q = assets@.take(i + 1);
        let ghost before = res@;
        proof {
            assert(q =~= p.push(*a));
            lemma_quantity_bounds(assets@, a.type_id, 0, i + 1);
        }
        let mut k: usize = 0;
        while k < res.len() && res[k].type_id != a.type_id
            invariant
                k <= res.len(),
                forall|j: int| 0 <= j < k ==> res@[j].type_id != a.type_id,
            decreases res.len() - k,
        {
            k += 1;
        }
        if k < res.len() {
            add_to_group(&mut res[k], a, Ghost(p));
            proof {
                assert forall|j: int| 0 <= j < res.len() implies describes(q, #[trigger] res@[j]) by {
                    if j != k {
                        assert(res@[j] == before[j]);
                        lemma_other_type(p, *a, before[j]);
                    }
                }
                assert forall|x: int, y: int| 0 <= x < y < res.len() implies res@[x].type_id != res@[y].type_id by {
                    assert(before[x].type_id != before[y].type_id);
                }
                assert forall|t: u32| has_type(q, t) implies exists|j: int| 0 <= j < res.len() && #[trigger] res@[j].type_id == t by {
                    if t != a.type_id {
                        let w = choose|w: int| 0 <= w < q.len() && q[w].type_id == t;
                        assert(w < p.len());
                        assert(p[w].type_id == t);
                        assert(has_type(p, t));
                        let j = choose|j: int| 0 <= j < before.len() && #[trigger] before[j].type_id == t;
                        assert(res@[j].type_id == t);
                    } else {
                        assert(res@[k as int].type_id == t);
                    }
                }
            }
        } else {
            let g = CharacterAsset::from_asset(a);
            res.push(g);
            proof {
                let t = a.type_id;
                assert(!has_type(p, t)) by {
                    if has_type(p, t) {
                        let j = choose|j: int| 0 <= j < before.len() && #[trigger] before[j].type_id == t;
                    }
                }
                lemma_absent_type(p, t, a.location_id);
                assert(q.drop_last() =~= p);
                assert(type_locations(q, t) =~= seq![a.location_id]);
                assert(q[i as int].type_id == t);
                assert(describes(q, res@[res.len() - 1]));
                assert forall|j: int| 0 <= j < res.len() implies describes(q, #[trigger] res@[j]) by {
                    if j < before.len() {
                        assert(res@[j] == before[j]);
                        lemma_other_type(p, *a, before[j]);
                    }
                }
                assert forall|t2: u32| has_type(q, t2) implies exists|j: int| 0 <= j < res.len() && #[trigger] res@[j].type_id == t2 by {
                    if t2 != t {
                        let w = choose|w: int| 0 <= w < q.len() && q[w].type_id == t2;
                        assert(w < p.len());
                        assert(p[w].type_id == t2);
                        assert(has_type(p, t2));
                        let j = choose|j: int| 0 <= j < before.len() && #[trigger] before[j].type_id == t2;
                        assert(res@[j].type_id == t2);
                    } else {
                        assert(res@[res.len() - 1].type_id == t2);
                    }
                }
            }
        }
        i += 1;
    }
    proof {
        assert(assets@.take(assets.len() as int) =~= assets@);
    }
    res
}

impl CharacterAsset {
    /// The assets of one type, made of a single asset.
    pub fn from_asset(x: &EveAsset) -> (r: Self)
        ensures
            r.item_ids@ == seq![x.item_id],
            r.quantity == x.quantity,
            r.type_id == x.type_id,
            r.locations.len() == 1,
            r.locations@[0].item_id == x.location_id,
            r.locations@[0].quantity == x.quantity,
            r.locations@[0].typ@ == x.location_flag@,
    {
        let mut item_ids = Vec::new();
        item_ids.push(x.item_id);
        let mut locations = Vec::new();
        locations.push(AssetLocation {
            item_id: x.location_id,
            quantity: x.quantity,
            typ: x.location_flag.clone(),
        });
        CharacterAsset { item_ids, quantity: x.quantity, type_id: x.type_id, locations }
    }
}

} // verus!
