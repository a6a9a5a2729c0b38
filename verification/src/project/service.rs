//! Projects, their products, the materials that they store and the
//! status that they are in.

use vstd::prelude::*;
use vstd::std_specs::convert::FromSpecImpl;
use crate::eve::group_data::GroupId;
use crate::eve::type_data::TypeId;

verus! {

/// Determines what status a project currently has.
#[derive(Clone, Copy, Debug, PartialEq, Eq, Structural)]
pub enum Status {
    /// The project is aborted
    Aborted,
    /// The project is finished
    Done,
    /// The project is currently in progress
    InProgress,
    /// The project is currently paused
    Paused,
}

/// Category of a budget entry.
#[derive(Clone, Copy, Debug, PartialEq, Eq, Structural)]
pub enum BudgetCategory {
    /// All purchases of materials
    Purchase,
    /// All wins
    Sold,
    /// All manufacture related costs
    Manufacture,
    /// All research related costs
    Research,
    /// Undefined budget category
    Other,
}

/// Represents a single stored material.
#[derive(Clone, Debug)]
pub struct Material {
    /// Type of the item that is stored
    pub type_id: TypeId,
    /// Number of items that are stored in this container
    pub quantity: i64,
    /// Quantity required for a single run
    pub quantity_single: i64,
    /// Name of the item that is stored
    pub name: String,
    /// Group of the item
    pub group_id: GroupId,
}

/// Quantity after a material efficiency of `me` percent: from ten items on,
/// and when a single run needs more than one, `me` percent of the
/// quantity, rounded down, is saved.
pub open spec fn me_quantity(quantity: int, quantity_single: int, me: int) -> int {
    if quantity >= 10 && quantity_single > 1 {
        quantity - (quantity * me) / 100
    } else {
        quantity
    }
}

impl Material {
    /// Applies a material efficiency bonus, given in percent.
    pub fn apply_me_bonus(&mut self, me: u8)
        requires
            i64::MIN <= me_quantity(old(self).quantity as int, old(self).quantity_single as int, me as int),
        ensures
            final(self).quantity == me_quantity(old(self).quantity as int, old(self).quantity_single as int, me as int),
            final(self).type_id == old(self).type_id,
            final(self).quantity_single == old(self).quantity_single,
            final(self).name == old(self).name,
            final(self).group_id == old(self).group_id,
    {
        if self.quantity >= 10 && self.quantity_single > 1 {
            let q = self.quantity as i128;
            let reduced: i128 = q - (q * (me as i128)) / 100;
            self.quantity = reduced as i64;
        }
    }
}

impl Default for Material {
    fn default() -> (r: Self)
        ensures
            r.type_id == TypeId(0),
            r.quantity == 0,
            r.quantity_single == 0,
            r.name@ == Seq::<char>::empty(),
            r.group_id == GroupId(0),
    {
        Material {
            type_id: TypeId(0),
            quantity: 0,
            quantity_single: 0,
            name: String::new(),
            group_id: GroupId(0),
        }
    }
}

/// Represents a product that is built within the project.
#[derive(Clone, Debug)]
pub struct Product {
    /// Name of the product
    pub name: String,
    /// Number of items that should be built
    pub count: u32,
    /// Material efficiency
    pub meff: u32,
    /// Type of the product
    pub type_id: TypeId,
}

/// Configuration for a product.
#[derive(Clone, Copy, Debug, PartialEq, Eq, Structural)]
pub struct ProductConfig {
    /// Number of items that should be built
    pub count: u32,
    /// Material efficiency
    pub meff: u32,
    /// Type of the product
    pub type_id: TypeId,
}

impl From<Product> for ProductConfig {
    fn from(x: Product) -> (r: Self) {
        ProductConfig { count: x.count, meff: x.meff, type_id: x.type_id }
    }
}

impl FromSpecImpl<Product> for ProductConfig {
    open spec fn obeys_from_spec() -> bool {
        true
    }

    open spec fn from_spec(v: Product) -> ProductConfig {
        ProductConfig { count: v.count, meff: v.meff, type_id: v.type_id }
    }
}

/// Represents a single project.
#[derive(Clone, Debug)]
pub struct Project {
    /// Unique identifier for the project
    pub project: u128,
    /// Every project belongs to exactly one character
    pub owner: u32,
    /// Name of the project
    pub name: String,
    /// Status of the project
    pub status: Status,
    /// All products that should be produced in this project
    pub products: Vec<Product>,
}

/// Represents basic information about a project.
#[derive(Clone, Debug)]
pub struct ProjectInfo {
    /// Id of the project
    pub project: u128,
    /// Project name
    pub name: String,
    /// Owner of the project
    pub owner: u32,
    /// Current project status
    pub status: Status,
}

/// Contains all information for creating a new project.
#[derive(Clone, Debug)]
pub struct Config {
    /// Name of the project
    pub name: String,
    /// List of all products that should be built
    pub products: Vec<ProductConfig>,
    /// Status of the project
    pub status: Option<Status>,
}

/// `r` groups the rows with the keys `keys`: each group lists, in
/// increasing order, the positions of rows that share one key, the groups
/// follow the order in which their keys first occur, no two groups share a
/// key, and every row is in a group.
pub open spec fn groups_rows(keys: Seq<i32>, r: Seq<Vec<usize>>) -> bool {
    &&& forall|g: int| 0 <= g < r.len() ==> (#[trigger] r[g])@.len() > 0
    &&& forall|g: int, j: int|
        0 <= g < r.len() && 0 <= j < r[g]@.len() ==> (#[trigger] r[g]@[j]) < keys.len() && keys[r[g]@[j] as int] == keys[
            r[g]@[0] as int]
    &&& forall|g: int, j1: int, j2: int|
        0 <= g < r.len() && 0 <= j1 < j2 < r[g]@.len() ==> (#[trigger] r[g]@[j1]) < (#[trigger] r[g]@[j2])
    &&& forall|g1: int, g2: int|
        0 <= g1 < g2 < r.len() ==> keys[(#[trigger] r[g1])@[0] as int] != keys[(#[trigger] r[g2])@[0] as int]
            && r[g1]@[0] < r[g2]@[0]
    &&& forall|i: int| 0 <= i < keys.len() ==> #[trigger] in_some_group(r, i)
}

/// Some group of `r` lists the row `i`.
pub open spec fn in_some_group(r: Seq<Vec<usize>>, i: int) -> bool {
    exists|g: int, j: int| 0 <= g < r.len() && 0 <= j < r[g]@.len() && #[trigger] r[g]@[j] == i
}

/// Groups the rows of the invention query by the item that they invent:
/// for each item the positions of its rows, of which the first gives the
/// invention and each gives one of its materials.
pub fn invention_groups(keys: &Vec<i32>) -> (r: Vec<Vec<usize>>)
    ensures
        groups_rows(keys@, r@),
{
    let mut r: Vec<Vec<usize>> = Vec::new();
    let mut i: usize = 0;
    while i < keys.len()
        invariant
            i <= keys.len(),
            groups_rows(keys@.take(i as int), r@),
            forall|g: int, j: int| 0 <= g < r.len() && 0 <= j < r[g]@.len() ==> (#[trigger] r[g]@[j]) < i,
        decreases keys.len() - i,
    {
        let ghost k0 = keys@.take(i as int);
        let ghost k1 = keys@.take(i + 1);
        let ghost r0 = r@;
        assert forall|x: int| 0 <= x < i implies k1[x] == k0[x] by {}
        let key = keys[i];
        let mut g: usize = 0;
        while g < r.len() && keys[r[g][0]] != key
            invariant
                g <= r.len(),
                r@ == r0,
                i < keys.len(),
                key == keys@[i as int],
                groups_rows(k0, r0),
                forall|h: int, j: int| 0 <= h < r.len() && 0 <= j < r[h]@.len() ==> (#[trigger] r[h]@[j]) < i,
                forall|h: int| 0 <= h < g ==> keys@[(#[trigger] r@[h])@[0] as int] != key,
            decreases r.len() - g,
        {
            assert(r[g as int]@.len() > 0);
            assert(r[g as int]@[0] < i);
            g += 1;
        }
        if g < r.len() {
            let ghost before = r[g as int]@;
            r[g].push(i);
            proof {
                assert(r@[g as int]@ == before.push(i));
                assert forall|h: int| 0 <= h < r.len() && h != g implies r@[h] == r0[h] by {}
                assert forall|h: int, j: int|
                    0 <= h < r.len() && 0 <= j < r[h]@.len() implies (#[trigger] r[h]@[j]) < k1.len() && k1[r[h]@[j] as int] == k1[r[h]@[0] as int] by {
                    if h == g {
                        if j < before.len() {
                            assert(r[h]@[j] == before[j]);
                        }
                        assert(r[h]@[0] == before[0]);
                    } else {
                        assert(r[h] == r0[h]);
                    }
                }
                assert forall|h: int, j1: int, j2: int|
                    0 <= h < r.len() && 0 <= j1 < j2 < r[h]@.len() implies (#[trigger] r[h]@[j1]) < (#[trigger] r[h]@[j2]) by {
                    if h == g {
                        assert(r[h]@[j1] == before[j1]);
                        if j2 < before.len() {
                            assert(r[h]@[j2] == before[j2]);
                        }
                    } else {
                        assert(r[h] == r0[h]);
                    }
                }
                assert forall|g1: int, g2: int| 0 <= g1 < g2 < r.len() implies k1[(#[trigger] r[g1])@[0] as int] != k1[(#[trigger] r[g2])@[0] as int]
                    && r[g1]@[0] < r[g2]@[0] by {
                    assert(r[g1]@[0] == r0[g1]@[0]);
                    assert(r[g2]@[0] == r0[g2]@[0]);
                }
                assert forall|x: int| 0 <= x < k1.len() implies #[trigger] in_some_group(r@, x) by {
                    if x == i {
                        assert(r[g as int]@[before.len() as int] == x);
                    } else {
                        assert(in_some_group(r0, x));
                        let (h, j) = choose|h: int, j: int| 0 <= h < r0.len() && 0 <= j < r0[h]@.len() && #[trigger] r0[h]@[j] == x;
                        if h == g {
                            assert(r[h]@[j] == before[j]);
                        } else {
                            assert(r[h] == r0[h]);
                        }
                    }
                }
                assert forall|h: int, j: int| 0 <= h < r.len() && 0 <= j < r[h]@.len() implies (#[trigger] r[h]@[j]) < i + 1 by {
                    if h == g {
                        if j < before.len() {
                            assert(r[h]@[j] == before[j]);
                        }
                    } else {
                        assert(r[h] == r0[h]);
                    }
                }
            }
        } else {
            let mut fresh: Vec<usize> = Vec::new();
            fresh.push(i);
            r.push(fresh);
            proof {
                let n = r0.len() as int;
                assert(r@[n]@ == seq![i]);
                assert forall|h: int| 0 <= h < n implies r@[h] == r0[h] by {}
                assert forall|g1: int, g2: int| 0 <= g1 < g2 < r.len() implies k1[(#[trigger] r[g1])@[0] as int] != k1[(#[trigger] r[g2])@[0] as int]
                    && r[g1]@[0] < r[g2]@[0] by {
                    assert(r[g1] == r0[g1]);
                    assert(r0[g1]@[0] < i);
                    if g2 < n {
                        assert(r[g2] == r0[g2]);
                    } else {
                        assert(keys@[r0[g1]@[0] as int] != key);
                    }
                }
                assert forall|x: int| 0 <= x < k1.len() implies #[trigger] in_some_group(r@, x) by {
                    if x == i {
                        assert(r[n]@[0] == x);
                    } else {
                        assert(in_some_group(r0, x));
                        let (h, j) = choose|h: int, j: int| 0 <= h < r0.len() && 0 <= j < r0[h]@.len() && #[trigger] r0[h]@[j] == x;
                        assert(r[h] == r0[h]);
                    }
                }
                assert forall|h: int, j: int|
                    0 <= h < r.len() && 0 <= j < r[h]@.len() implies (#[trigger] r[h]@[j]) < k1.len() && k1[r[h]@[j] as int] == k1[r[h]@[0] as int] by {
                    if h < n {
                        assert(r[h] == r0[h]);
                    }
                }
                assert forall|h: int, j1: int, j2: int|
                    0 <= h < r.len() && 0 <= j1 < j2 < r[h]@.len() implies (#[trigger] r[h]@[j1]) < (#[trigger] r[h]@[j2]) by {
                    if h < n {
                        assert(r[h] == r0[h]);
                    }
                }
                assert forall|h: int, j: int| 0 <= h < r.len() && 0 <= j < r[h]@.len() implies (#[trigger] r[h]@[j]) < i + 1 by {
                    if h < n {
                        assert(r[h] == r0[h]);
                    }
                }
            }
        }
        i += 1;
    }
    assert(keys@.take(keys.len() as int) =~= keys@);
    r
}

/// The type ids and the counts of the products of a project, as the two
/// columns that are stored; a count beyond the range of `i32` wraps.
pub fn product_columns(products: &Vec<ProductConfig>) -> (r: (Vec<u32>, Vec<i32>))
    ensures
        r.0.len() == products.len(),
        r.1.len() == products.len(),
        forall|i: int| 0 <= i < products.len() ==> r.0@[i] == (#[trigger] products@[i]).type_id.0,
        forall|i: int| 0 <= i < products.len() ==> r.1@[i] == (#[trigger] products@[i]).count as i32,
{
    let mut ids: Vec<u32> = Vec::new();
    let mut counts: Vec<i32> = Vec::new();
    let mut i: usize = 0;
    while i < products.len()
        invariant
            i <= products.len(),
            ids.len() == i,
            counts.len() == i,
            forall|j: int| 0 <= j < i ==> ids@[j] == (#[trigger] products@[j]).type_id.0,
            forall|j: int| 0 <= j < i ==> counts@[j] == (#[trigger] products@[j]).count as i32,
        decreases products.len() - i,
    {
        ids.push(products[i].type_id.0);
        counts.push(products[i].count as i32);
        i += 1;
    }
    (ids, counts)
}

/// A row of the invention query: the invented item and one of the
/// datacores that the invention takes.
#[derive(Clone, Debug)]
pub struct InventionRow {
    pub itype_id: i32,
    pub time: i32,
    pub iname: String,
    pub mtype_id: i32,
    pub quantity: i64,
    pub dname: String,
    pub dgroup_id: i32,
}

/// An invention of a project: the invented item, its time and the
/// datacores that it takes; `first_row` is the row that it was made from,
/// which also holds its chance of success.
#[derive(Clone, Debug)]
pub struct InventionEntry {
    pub name: String,
    pub time_per_run: i32,
    pub time_total: i32,
    pub type_id: TypeId,
    pub materials: Vec<Material>,
    pub first_row: usize,
}

/// `m` is the datacore of the row `row`.
pub open spec fn is_row_datacore(m: Material, row: InventionRow) -> bool {
    &&& m.type_id == TypeId(row.mtype_id as u32)
    &&& m.quantity == row.quantity
    &&& m.quantity_single == row.quantity
    &&& m.name == row.dname
    &&& m.group_id == GroupId(row.dgroup_id as u32)
}

/// `e` is the invention of the rows at the positions `g`: named and timed
/// as its first row says, with one datacore for each row.
pub open spec fn is_group_invention(rows: Seq<InventionRow>, g: Seq<usize>, e: InventionEntry) -> bool {
    let f = rows[g[0] as int];
    &&& e.first_row == g[0]
    &&& e.name == f.iname
    &&& e.time_per_run == f.time
    &&& e.time_total == f.time
    &&& e.type_id == TypeId(f.itype_id as u32)
    &&& e.materials.len() == g.len()
    &&& forall|j: int| 0 <= j < g.len() ==> is_row_datacore(#[trigger] e.materials@[j], rows[g[j] as int])
}

/// The inventions of a project: one per invented item, in the order in
/// which the items first occur, each with the datacores of all its rows.
pub fn invention_entries(rows: &Vec<InventionRow>) -> (r: Vec<InventionEntry>)
    ensures
        exists|groups: Seq<Vec<usize>>| {
            &&& groups_rows(rows@.map_values(|x: InventionRow| x.itype_id), groups)
            &&& r.len() == groups.len()
            &&& forall|i: int| 0 <= i < groups.len() ==> is_group_invention(rows@, groups[i]@, #[trigger] r@[i])
        },
{
    let mut keys: Vec<i32> = Vec::new();
    let mut i: usize = 0;
    while i < rows.len()
        invariant
            i <= rows.len(),
            keys@ == rows@.take(i as int).map_values(|x: InventionRow| x.itype_id),
        decreases rows.len() - i,
    {
        keys.push(rows[i].itype_id);
        assert(rows@.take(i + 1).map_values(|x: InventionRow| x.itype_id) =~= rows@.take(i as int).map_values(
            |x: InventionRow| x.itype_id,
        ).push(rows@[i as int].itype_id));
        i += 1;
    }
    assert(rows@.take(rows.len() as int) =~= rows@);
    let groups = invention_groups(&keys);
    let mut r: Vec<InventionEntry> = Vec::new();
    let mut g: usize = 0;
    while g < groups.len()
        invariant
            g <= groups.len(),
            r.len() == g,
            keys@ == rows@.map_values(|x: InventionRow| x.itype_id),
            keys@.len() == rows@.len(),
            groups_rows(keys@, groups@),
            forall|i: int| 0 <= i < g ==> is_group_invention(rows@, groups@[i]@, #[trigger] r@[i]),
        decreases groups.len() - g,
    {
        let grp = &groups[g];
        assert(grp@.len() > 0);
        let f = &rows[grp[0]];
        let mut materials: Vec<Material> = Vec::new();
        let mut j: usize = 0;
        while j < grp.len()
            invariant
                j <= grp.len(),
                materials.len() == j,
                grp@ == groups@[g as int]@,
                groups_rows(keys@, groups@),
                g < groups.len(),
                keys@.len() == rows@.len(),
                forall|k: int| 0 <= k < j ==> is_row_datacore(#[trigger] materials@[k], rows@[grp@[k] as int]),
            decreases grp.len() - j,
        {
            assert(grp@[j as int] < keys@.len());
            let row = &rows[grp[j]];
            materials.push(Material {
                type_id: TypeId(row.mtype_id as u32),
                quantity: row.quantity,
                quantity_single: row.quantity,
                name: row.dname.clone(),
                group_id: GroupId(row.dgroup_id as u32),
            });
            j += 1;
        }
        r.push(InventionEntry {
            name: f.iname.clone(),
            time_per_run: f.time,
            time_total: f.time,
            type_id: TypeId(f.itype_id as u32),
            materials,
            first_row: grp[0],
        });
        proof {
            assert forall|i: int| 0 <= i < g + 1 implies is_group_invention(rows@, groups@[i]@, #[trigger] r@[i]) by {
                if i < g {
                } else {
                    assert(r@[i].materials@ == materials@);
                }
            }
        }
        g += 1;
    }
    r
}

} // verus!
