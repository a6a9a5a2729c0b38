//! The blueprint cache: for every product the materials that one run of
//! its blueprint takes, as read from the rows of the blueprint tables.

use vstd::prelude::*;
use std::collections::HashMap;
use crate::eve::group_data::{CategoryId, GroupId};
use crate::eve::type_data::TypeId;
use crate::project::dependency::{lemma_same_tree_refl, lemma_same_tree_trans, same_tree, Dependency};

verus! {

/// A row of the blueprint tables: a product, its blueprint's yield and
/// time, and one material of it.
#[derive(Clone, Debug)]
pub struct CacheRow {
    pub ptype_id: u32,
    pub product_quantity: i64,
    pub product_time: i32,
    pub product_name: String,
    pub product_category_id: u32,
    pub product_group_id: u32,
    pub mtype_id: u32,
    pub material_quantity: i64,
    pub material_name: String,
    pub material_category_id: u32,
    pub material_group_id: u32,
}

/// The rows of the product `p`, in order.
pub open spec fn product_rows(rows: Seq<CacheRow>, p: u32) -> Seq<CacheRow>
    decreases rows.len(),
{
    if rows.len() == 0 {
        Seq::empty()
    } else if rows.last().ptype_id == p {
        product_rows(rows.drop_last(), p).push(rows.last())
    } else {
        product_rows(rows.drop_last(), p)
    }
}

/// `d` is the material of the row `row`: a raw material with the row's
/// quantity, which takes no time.
pub open spec fn is_row_material(d: Dependency, row: CacheRow) -> bool {
    &&& d.name == row.material_name
    &&& d.ptype_id == TypeId(row.mtype_id)
    &&& d.category_id == CategoryId(row.material_category_id)
    &&& d.group_id == GroupId(row.material_group_id)
    &&& d.products == row.material_quantity
    &&& d.products_base == row.material_quantity
    &&& d.products_per_run == 0
    &&& d.time == 0
    &&& d.time_per_run == 0
    &&& d.components.len() == 0
}

/// `d` is the product of the rows `rs`: named and timed as its first row
/// says, with nothing to produce yet, and one material for each row.
pub open spec fn is_row_product(d: Dependency, rs: Seq<CacheRow>) -> bool {
    let f = rs[0];
    &&& d.name == f.product_name
    &&& d.ptype_id == TypeId(f.ptype_id)
    &&& d.category_id == CategoryId(f.product_category_id)
    &&& d.group_id == GroupId(f.product_group_id)
    &&& d.products == 0
    &&& d.products_base == 0
    &&& d.products_per_run == f.product_quantity
    &&& d.time == f.product_time as i64
    &&& d.time_per_run == f.product_time as i64
    &&& d.components.len() == rs.len()
    &&& forall|j: int| 0 <= j < rs.len() ==> is_row_material(#[trigger] d.components@[j], rs[j])
}

/// The map `m` caches the rows: one entry for each product that has rows,
/// made of them.
pub open spec fn caches_rows(rows: Seq<CacheRow>, m: Map<u32, Dependency>) -> bool {
    &&& forall|p: u32| #[trigger] m.contains_key(p) <==> product_rows(rows, p).len() > 0
    &&& forall|p: u32| #[trigger] m.contains_key(p) ==> is_row_product(m[p], product_rows(rows, p))
}

/// Maps product type ids to a dependency holding all its required
/// materials.
#[derive(Debug)]
pub struct DependencyCache(HashMap<u32, Dependency>);

/// The material of a row.
fn row_material(row: &CacheRow) -> (r: Dependency)
    ensures
        is_row_material(r, *row),
{
    Dependency {
        name: row.material_name.clone(),
        ptype_id: TypeId(row.mtype_id),
        category_id: CategoryId(row.material_category_id),
        group_id: GroupId(row.material_group_id),
        products: row.material_quantity,
        products_base: row.material_quantity,
        products_per_run: 0,
        time: 0,
        time_per_run: 0,
        components: Vec::new(),
    }
}

impl View for DependencyCache {
    type V = Map<u32, Dependency>;

    /// The products of the cache, by type id.
    closed spec fn view(&self) -> Map<u32, Dependency> {
        self.0@
    }
}

impl DependencyCache {
    /// A cache of the rows of the blueprint tables: one entry per product,
    /// holding one material for each of its rows, in the order of the
    /// rows.
    pub fn from_rows(rows: &Vec<CacheRow>) -> (r: Self)
        ensures
            caches_rows(rows@, r.view()),
    {
        let mut entries: HashMap<u32, Dependency> = HashMap::new();
        let mut i: usize = 0;
        proof {
            assert(rows@.take(0) =~= Seq::<CacheRow>::empty());
            assert forall|p: u32| #[trigger] entries@.contains_key(p) <==> product_rows(rows@.take(0), p).len() > 0 by {}
        }
        while i < rows.len()
            invariant
                i <= rows.len(),
                caches_rows(rows@.take(i as int), entries@),
            decreases rows.len() - i,
        {
            let row = &rows[i];
            let p = row.ptype_id;
            let ghost k0 = rows@.take(i as int);
            let ghost k1 = rows@.take(i + 1);
            let ghost m0 = entries@;
            proof {
                assert(k1.drop_last() =~= k0);
                assert(k1.last() == *row);
                assert(product_rows(k1, p) == product_rows(k0, p).push(*row));
                assert forall|q: u32| q != p implies product_rows(k1, q) == product_rows(k0, q) by {}
            }
            let material = row_material(row);
            match entries.remove(&p) {
                Some(mut e) => {
                    let ghost before = e.components@;
                    e.components.push(material);
                    entries.insert(p, e);
                    proof {
                        let rs = product_rows(k1, p);
                        assert(is_row_product(m0[p], product_rows(k0, p)));
                        assert(rs[0] == product_rows(k0, p)[0]);
                        assert forall|j: int| 0 <= j < rs.len() implies is_row_material(#[trigger] e.components@[j], rs[j]) by {
                            if j < before.len() {
                                assert(e.components@[j] == before[j]);
                                assert(rs[j] == product_rows(k0, p)[j]);
                            }
                        }
                    }
                },
                None => {
                    let mut components: Vec<Dependency> = Vec::new();
                    components.push(material);
                    let e = Dependency {
                        name: row.product_name.clone(),
                        ptype_id: TypeId(p),
                        category_id: CategoryId(row.product_category_id),
                        group_id: GroupId(row.product_group_id),
                        products: 0,
                        products_base: 0,
                        products_per_run: row.product_quantity,
                        time: row.product_time as i64,
                        time_per_run: row.product_time as i64,
                        components,
                    };
                    entries.insert(p, e);
                    proof {
                        assert(product_rows(k0, p).len() == 0);
                        assert(product_rows(k1, p) =~= seq![*row]);
                    }
                },
            }
            proof {
                assert forall|q: u32| #[trigger] entries@.contains_key(q) <==> product_rows(k1, q).len() > 0 by {}
                assert forall|q: u32| #[trigger] entries@.contains_key(q) implies is_row_product(entries@[q], product_rows(k1, q)) by {
                    if q != p {
                        assert(m0.contains_key(q));
                    }
                }
            }
            i += 1;
        }
        proof {
            assert(rows@.take(rows.len() as int) =~= rows@);
        }
        DependencyCache(entries)
    }

    /// Gets all required materials for a product, if the cache knows it.
    pub fn get(&self, key: u32) -> (r: Option<&Dependency>)
        ensures
            match r {
                Some(d) => self.view().contains_key(key) && *d == self.view()[key],
                None => !self.view().contains_key(key),
            },
    {
        self.0.get(&key)
    }
}

/// `pi` orders the positions `0..n`: each of them once.
pub open spec fn is_order(pi: Seq<int>, n: int) -> bool {
    &&& pi.len() == n
    &&& forall|j: int| 0 <= j < n ==> 0 <= #[trigger] pi[j] < n
    &&& forall|j1: int, j2: int| 0 <= j1 < j2 < n ==> #[trigger] pi[j1] != #[trigger] pi[j2]
}

/// The dependencies `s` are ordered by type id.
pub open spec fn sorted_by_type(s: Seq<Dependency>) -> bool {
    forall|j1: int, j2: int| 0 <= j1 < j2 < s.len() ==> (#[trigger] s[j1]).ptype_id.0 <= (#[trigger] s[j2]).ptype_id.0
}

/// Dependencies of one type in `s` keep the order `pi` took them in.
pub open spec fn keeps_ties(s: Seq<Dependency>, pi: Seq<int>) -> bool {
    forall|j1: int, j2: int|
        0 <= j1 < j2 < s.len() && (#[trigger] s[j1]).ptype_id == (#[trigger] s[j2]).ptype_id ==> pi[j1] < pi[j2]
}

/// `d` is `orig` with the blueprint of `id` from the cache `m` filled in:
/// where `m` knows `id`, `d` takes its yield per run and its materials,
/// ordered by type id (stable), each with its own blueprint filled in in
/// turn; else `d` is `orig`. The other fields stay as they are.
pub open spec fn expands(m: Map<u32, Dependency>, id: u32, orig: Dependency, d: Dependency) -> bool
    decreases d,
{
    &&& d.name == orig.name
    &&& d.ptype_id == orig.ptype_id
    &&& d.category_id == orig.category_id
    &&& d.group_id == orig.group_id
    &&& d.products == orig.products
    &&& d.products_base == orig.products_base
    &&& d.time == orig.time
    &&& d.time_per_run == orig.time_per_run
    &&& if m.contains_key(id) {
        let src = m[id].components@;
        &&& d.products_per_run == m[id].products_per_run
        &&& d.components.len() == src.len()
        &&& sorted_by_type(d.components@)
        &&& exists|pi: Seq<int>| {
            &&& is_order(pi, src.len() as int)
            &&& keeps_ties(d.components@, pi)
            &&& forall|j: int|
                0 <= j < src.len() ==> expands(
                    m,
                    src[pi[j]].ptype_id.0,
                    src[pi[j]],
                    #[trigger] d.components@[j],
                )
        }
    } else {
        same_tree(d, orig)
    }
}

/// `rank` decreases from every product of `m` to each of its materials
/// that `m` knows: the blueprints hold no cycle.
pub open spec fn ranked(m: Map<u32, Dependency>, rank: spec_fn(u32) -> nat) -> bool {
    forall|p: u32, j: int|
        #[trigger] m.contains_key(p) && 0 <= j < m[p].components.len() && m.contains_key(
            (#[trigger] m[p].components@[j]).ptype_id.0,
        ) ==> rank(m[p].components@[j].ptype_id.0) < rank(p)
}

/// The blueprints of `m` hold no cycle: no product needs itself, however
/// far down.
pub open spec fn acyclic(m: Map<u32, Dependency>) -> bool {
    exists|rank: spec_fn(u32) -> nat| ranked(m, rank)
}

/// How far down the blueprints of `m` go from `id`.
pub open spec fn depth_measure(m: Map<u32, Dependency>, rank: spec_fn(u32) -> nat, id: u32) -> int {
    if m.contains_key(id) {
        rank(id) as int + 1
    } else {
        0
    }
}

/// Expanding a copy of a tree expands the tree.
proof fn lemma_expands_copy(m: Map<u32, Dependency>, id: u32, a: Dependency, b: Dependency, d: Dependency)
    requires
        same_tree(a, b),
        expands(m, id, a, d),
    ensures
        expands(m, id, b, d),
{
    if !m.contains_key(id) {
        lemma_same_tree_trans(d, a, b);
    }
}

/// Orders the dependencies by type id, keeping those of one type in their
/// order; also the positions that they came from.
fn sort_by_type(v: Vec<Dependency>) -> (r: (Vec<Dependency>, Ghost<Seq<int>>))
    ensures
        r.0.len() == v.len(),
        is_order(r.1@, v.len() as int),
        sorted_by_type(r.0@),
        keeps_ties(r.0@, r.1@),
        forall|j: int| 0 <= j < v.len() ==> #[trigger] r.0@[j] == v@[r.1@[j]],
{
    let ghost orig = v@;
    let ghost n = v.len() as int;
    let mut v = v;
    let mut out: Vec<Dependency> = Vec::new();
    let ghost mut pi: Seq<int> = Seq::empty();
    while v.len() > 0
        invariant
            v@ == orig.take(v.len() as int),
            out.len() + v.len() == n,
            n == orig.len(),
            pi.len() == out.len(),
            forall|j: int| 0 <= j < out.len() ==> v.len() <= #[trigger] pi[j] < n,
            forall|j1: int, j2: int| 0 <= j1 < j2 < out.len() ==> #[trigger] pi[j1] != #[trigger] pi[j2],
            forall|j: int| 0 <= j < out.len() ==> #[trigger] out@[j] == orig[pi[j]],
            sorted_by_type(out@),
            keeps_ties(out@, pi),
        decreases v.len(),
    {
        let ghost k = v.len() - 1;
        let e = v.pop().unwrap();
        proof {
            assert(e == orig[k]);
            assert(v@ =~= orig.take(k));
        }
        let id = e.ptype_id.0;
        let mut pos: usize = 0;
        while pos < out.len() && out[pos].ptype_id.0 < id
            invariant
                pos <= out.len(),
                forall|j: int| 0 <= j < pos ==> (#[trigger] out@[j]).ptype_id.0 < id,
            decreases out.len() - pos,
        {
            pos += 1;
        }
        let ghost out0 = out@;
        let ghost pi0 = pi;
        out.insert(pos, e);
        proof {
            pi = pi0.insert(pos as int, k);
            assert(out@ == out0.insert(pos as int, e));
            assert forall|j: int| 0 <= j < out.len() implies v.len() <= #[trigger] pi[j] < n by {
                if j < pos {
                    assert(pi[j] == pi0[j]);
                } else if j > pos {
                    assert(pi[j] == pi0[j - 1]);
                }
            }
            assert forall|j1: int, j2: int| 0 <= j1 < j2 < out.len() implies #[trigger] pi[j1] != #[trigger] pi[j2] by {
                if j1 != pos && j2 != pos {
                    let a = if j1 < pos { j1 } else { j1 - 1 };
                    let b = if j2 < pos { j2 } else { j2 - 1 };
                    assert(pi[j1] == pi0[a]);
                    assert(pi[j2] == pi0[b]);
                } else if j1 == pos {
                    assert(pi[j2] == pi0[j2 - 1]);
                } else {
                    if j1 < pos {
                        assert(pi[j1] == pi0[j1]);
                    }
                }
            }
            assert forall|j: int| 0 <= j < out.len() implies #[trigger] out@[j] == orig[pi[j]] by {
                if j < pos {
                    assert(out@[j] == out0[j]);
                    assert(pi[j] == pi0[j]);
                } else if j > pos {
                    assert(out@[j] == out0[j - 1]);
                    assert(pi[j] == pi0[j - 1]);
                }
            }
            assert forall|j1: int, j2: int| 0 <= j1 < j2 < out.len() implies (#[trigger] out@[j1]).ptype_id.0 <= (#[trigger] out@[j2]).ptype_id.0 by {
                if j1 < pos && j2 < pos {
                    assert(out@[j1] == out0[j1]);
                    assert(out@[j2] == out0[j2]);
                } else if j1 < pos && j2 == pos {
                    assert(out@[j1] == out0[j1]);
                } else if j1 < pos {
                    assert(out@[j1] == out0[j1]);
                    assert(out@[j2] == out0[j2 - 1]);
                } else if j1 == pos {
                    assert(out@[j2] == out0[j2 - 1]);
                    if pos < out0.len() {
                        assert(out0[pos as int].ptype_id.0 >= id);
                        if j2 - 1 > pos {
                            assert(out0[pos as int].ptype_id.0 <= out0[j2 - 1].ptype_id.0);
                        }
                    }
                } else {
                    assert(out@[j1] == out0[j1 - 1]);
                    assert(out@[j2] == out0[j2 - 1]);
                }
            }
            assert forall|j1: int, j2: int|
                0 <= j1 < j2 < out.len() && (#[trigger] out@[j1]).ptype_id == (#[trigger] out@[j2]).ptype_id implies pi[j1] < pi[j2] by {
                if j1 < pos && j2 < pos {
                    assert(out@[j1] == out0[j1]);
                    assert(out@[j2] == out0[j2]);
                    assert(pi[j1] == pi0[j1]);
                    assert(pi[j2] == pi0[j2]);
                } else if j1 < pos && j2 == pos {
                    assert(out@[j1] == out0[j1]);
                } else if j1 < pos {
                    assert(out@[j1] == out0[j1]);
                    assert(out@[j2] == out0[j2 - 1]);
                    assert(pi[j1] == pi0[j1]);
                    assert(pi[j2] == pi0[j2 - 1]);
                } else if j1 == pos {
                    assert(pi[j2] == pi0[j2 - 1]);
                } else {
                    assert(out@[j1] == out0[j1 - 1]);
                    assert(out@[j2] == out0[j2 - 1]);
                    assert(pi[j1] == pi0[j1 - 1]);
                    assert(pi[j2] == pi0[j2 - 1]);
                }
            }
        }
    }
    (out, Ghost(pi))
}

impl DependencyCache {
    /// Fills in the blueprint of `ptype_id` for `material`, down to the
    /// raw materials, following `rank`.
    fn expand(&self, ptype_id: u32, material: &mut Dependency, Ghost(rank): Ghost<spec_fn(u32) -> nat>)
        requires
            ranked(self.view(), rank),
        ensures
            expands(self.view(), ptype_id, *old(material), *final(material)),
        decreases depth_measure(self.view(), rank, ptype_id),
    {
        let ghost m = self.view();
        match self.get(ptype_id) {
            Some(x) => {
                let mut copies: Vec<Dependency> = Vec::new();
                let n = x.components.len();
                let mut i: usize = 0;
                while i < n
                    invariant
                        n == x.components.len(),
                        i <= n,
                        copies.len() == i,
                        forall|j: int| 0 <= j < i ==> same_tree(#[trigger] copies@[j], x.components@[j]),
                    decreases n - i,
                {
                    copies.push(x.components[i].clone());
                    i += 1;
                }
                let ghost copied = copies@;
                let (mut sorted, Ghost(pi)) = sort_by_type(copies);
                let ghost sorted0 = sorted@;
                let mut k: usize = 0;
                while k < n
                    invariant
                        n == x.components.len(),
                        n == sorted.len(),
                        k <= n,
                        ranked(m, rank),
                        m == self.view(),
                        m.contains_key(ptype_id),
                        *x == m[ptype_id],
                        is_order(pi, n as int),
                        sorted_by_type(sorted0),
                        keeps_ties(sorted0, pi),
                        forall|j: int| 0 <= j < n ==> same_tree(#[trigger] copied[j], x.components@[j]),
                        forall|j: int| 0 <= j < n ==> #[trigger] sorted0[j] == copied[pi[j]],
                        forall|j: int| 0 <= j < n ==> (#[trigger] sorted@[j]).ptype_id == sorted0[j].ptype_id,
                        forall|j: int| 0 <= j < k ==> expands(
                            m,
                            x.components@[pi[j]].ptype_id.0,
                            x.components@[pi[j]],
                            #[trigger] sorted@[j],
                        ),
                        forall|j: int| k <= j < n ==> #[trigger] sorted@[j] == sorted0[j],
                    decreases n - k,
                {
                    let ghost c = x.components@[pi[k as int]];
                    let id = sorted[k].ptype_id.0;
                    proof {
                        assert(sorted0[k as int] == copied[pi[k as int]]);
                        assert(same_tree(copied[pi[k as int]], c));
                        assert(id == c.ptype_id.0);
                        assert(m.contains_key(ptype_id) && 0 <= pi[k as int] < m[ptype_id].components.len());
                        if m.contains_key(id) {
                            assert(m[ptype_id].components@[pi[k as int]] == c);
                            assert(rank(id) < rank(ptype_id));
                        }
                    }
                    self.expand(id, &mut sorted[k], Ghost(rank));
                    proof {
                        lemma_expands_copy(m, id, sorted0[k as int], c, sorted@[k as int]);
                    }
                    k += 1;
                }
                material.products_per_run = x.products_per_run;
                material.components = sorted;
                proof {
                    let d = *material;
                    let src = m[ptype_id].components@;
                    assert forall|j1: int, j2: int| 0 <= j1 < j2 < d.components.len() implies
                        (#[trigger] d.components@[j1]).ptype_id.0 <= (#[trigger] d.components@[j2]).ptype_id.0 by {
                        assert(sorted0[j1].ptype_id.0 <= sorted0[j2].ptype_id.0);
                    }
                    assert forall|j1: int, j2: int|
                        0 <= j1 < j2 < d.components.len() && (#[trigger] d.components@[j1]).ptype_id == (#[trigger] d.components@[j2]).ptype_id
                        implies pi[j1] < pi[j2] by {
                        assert(sorted0[j1].ptype_id == sorted0[j2].ptype_id);
                    }
                    assert(is_order(pi, src.len() as int));
                    assert(keeps_ties(d.components@, pi));
                }
            },
            None => {
                proof {
                    lemma_same_tree_refl(*material);
                }
            },
        }
    }
}

impl Dependency {
    /// Fills in the blueprint of the component `ptype_id` for `material`:
    /// its yield per run and its materials, ordered by type id, each
    /// filled in in turn down to the raw materials. A product that the
    /// cache does not know is left as it is.
    pub fn component_from_cache(cache: &DependencyCache, ptype_id: TypeId, material: &mut Dependency)
        requires
            acyclic(cache.view()),
        ensures
            expands(cache.view(), ptype_id.0, *old(material), *final(material)),
    {
        let ghost rank = choose|rank: spec_fn(u32) -> nat| ranked(cache.view(), rank);
        cache.expand(ptype_id.0, material, Ghost(rank));
    }

    /// Builds the dependency tree of the product `ptype_id` from the
    /// cache: its blueprint, with the blueprint of each material filled
    /// in down to the raw materials.
    pub fn from_cache(cache: &DependencyCache, ptype_id: TypeId) -> (r: Dependency)
        requires
            acyclic(cache.view()),
            cache.view().contains_key(ptype_id.0),
        ensures
            ({
                let src = cache.view()[ptype_id.0];
                &&& r.name == src.name
                &&& r.ptype_id == src.ptype_id
                &&& r.category_id == src.category_id
                &&& r.group_id == src.group_id
                &&& r.products == src.products
                &&& r.products_base == src.products_base
                &&& r.products_per_run == src.products_per_run
                &&& r.time == src.time
                &&& r.time_per_run == src.time_per_run
                &&& r.components.len() == src.components.len()
                &&& forall|j: int|
                    0 <= j < src.components.len() ==> expands(
                        cache.view(),
                        src.components@[j].ptype_id.0,
                        src.components@[j],
                        #[trigger] r.components@[j],
                    )
            }),
    {
        let ghost m = cache.view();
        let ghost src = m[ptype_id.0];
        let mut root = match cache.get(ptype_id.0) {
            Some(x) => x.clone(),
            None => Dependency::with_dependencies(Vec::new()),
        };
        let ghost root0 = root;
        let n = root.components.len();
        let mut i: usize = 0;
        while i < n
            invariant
                n == root.components.len(),
                n == src.components.len(),
                i <= n,
                acyclic(m),
                m == cache.view(),
                same_tree(root0, src),
                root.name == src.name,
                root.ptype_id == src.ptype_id,
                root.category_id == src.category_id,
                root.group_id == src.group_id,
                root.products == src.products,
                root.products_base == src.products_base,
                root.products_per_run == src.products_per_run,
                root.time == src.time,
                root.time_per_run == src.time_per_run,
                forall|j: int| 0 <= j < i ==> expands(m, src.components@[j].ptype_id.0, src.components@[j], #[trigger] root.components@[j]),
                forall|j: int| i <= j < n ==> #[trigger] root.components@[j] == root0.components@[j],
            decreases n - i,
        {
            let id = root.components[i].ptype_id;
            proof {
                assert(same_tree(root0.components@[i as int], src.components@[i as int]));
            }
            Dependency::component_from_cache(cache, id, &mut root.components[i]);
            proof {
                lemma_expands_copy(m, id.0, root0.components@[i as int], src.components@[i as int], root.components@[i as int]);
            }
            i += 1;
        }
        root
    }
}

} // verus!
