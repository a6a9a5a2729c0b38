//! Collecting the raw materials of a dependency tree into a group: one
//! entry per raw material, holding the quantity that the whole tree needs.

use vstd::prelude::*;
use crate::project::dependency::group::{entry_of, has_entry, DependencyGroup};
use crate::project::dependency::{
    lemma_quantity_set_shape, lemma_same_shape_sym, lemma_same_shape_trans, lemma_same_tree_shape,
    lemma_shape_quantity_fits, quantity_fits, runs_for, same_shape, same_tree, Dependency,
};

verus! {

/// `d` with `amount` products and the time of the runs that they take:
/// what setting the quantity of a raw material, which has no components,
/// gives.
pub open spec fn with_quantity(d: Dependency, amount: int) -> Dependency {
    Dependency {
        products: amount as i64,
        time: (runs_for(amount, d.products_per_run as int) * d.time_per_run) as i64,
        ..d
    }
}

/// Setting the quantity of the raw material `e` to `amount` stays within
/// the range of `i64`.
pub open spec fn leaf_quantity_fits(e: Dependency, amount: int) -> bool {
    &&& i64::MIN <= amount <= i64::MAX
    &&& i64::MIN <= runs_for(amount, e.products_per_run as int) * e.time_per_run <= i64::MAX
}

/// The raw materials `m` after the raw material `c` was added: a new one
/// is taken as it is, one that is there gets the sum of both quantities.
pub open spec fn add_raw(m: Map<u32, Dependency>, c: Dependency) -> Map<u32, Dependency> {
    let id = c.ptype_id.0;
    if m.contains_key(id) {
        m.insert(id, with_quantity(m[id], m[id].products + c.products))
    } else {
        m.insert(id, c)
    }
}

/// The raw materials `m` after those of `o` were added to them.
pub open spec fn merge_raw(m: Map<u32, Dependency>, o: Map<u32, Dependency>) -> Map<u32, Dependency> {
    Map::new(
        |k: u32| m.contains_key(k) || o.contains_key(k),
        |k: u32|
            if m.contains_key(k) && o.contains_key(k) {
                with_quantity(m[k], m[k].products + o[k].products)
            } else if m.contains_key(k) {
                m[k]
            } else {
                o[k]
            },
    )
}

/// The raw materials that building `d` takes, by type id: every component
/// without components of its own is a raw material, and the raw materials
/// of the other components are taken in turn.
pub open spec fn raw_materials_of(d: Dependency) -> Map<u32, Dependency>
    decreases d, 1int,
{
    raw_materials_seq(d.components@)
}

/// The raw materials that building all of `cs` takes, by type id.
pub open spec fn raw_materials_seq(cs: Seq<Dependency>) -> Map<u32, Dependency>
    decreases cs, 0int,
{
    if cs.len() == 0 {
        Map::empty()
    } else {
        let m = raw_materials_seq(cs.drop_last());
        let c = cs.last();
        if c.components.len() == 0 {
            add_raw(m, c)
        } else {
            merge_raw(m, raw_materials_of(c))
        }
    }
}

/// Collecting the raw materials of `d` stays within the range of `i64`.
pub open spec fn raw_fits_of(d: Dependency) -> bool
    decreases d, 1int,
{
    raw_fits_seq(d.components@)
}

/// Collecting the raw materials of `cs`, one after another, stays within
/// the range of `i64`.
pub open spec fn raw_fits_seq(cs: Seq<Dependency>) -> bool
    decreases cs, 0int,
{
    if cs.len() == 0 {
        true
    } else {
        let m = raw_materials_seq(cs.drop_last());
        let c = cs.last();
        &&& raw_fits_seq(cs.drop_last())
        &&& if c.components.len() == 0 {
            m.contains_key(c.ptype_id.0) ==> leaf_quantity_fits(m[c.ptype_id.0], m[c.ptype_id.0].products + c.products)
        } else {
            &&& raw_fits_of(c)
            &&& forall|k: u32|
                m.contains_key(k) && #[trigger] raw_materials_of(c).contains_key(k)
                    ==> leaf_quantity_fits(m[k], m[k].products + raw_materials_of(c)[k].products)
        }
    }
}

/// The group `s` holds the dependencies `m`: one entry for each type id of
/// `m`, and that entry holds the same tree.
pub open spec fn holds_map(s: Seq<Dependency>, m: Map<u32, Dependency>) -> bool {
    &&& forall|k: u32| #[trigger] has_entry(s, k) <==> m.contains_key(k)
    &&& forall|k: u32| #[trigger] has_entry(s, k) ==> same_tree(entry_of(s, k), m[k])
}

/// Every dependency of `m` is a raw material.
pub open spec fn all_raw(m: Map<u32, Dependency>) -> bool {
    forall|k: u32| #[trigger] m.contains_key(k) ==> m[k].components.len() == 0
}

proof fn lemma_raw_materials_are_raw(cs: Seq<Dependency>)
    ensures
        all_raw(raw_materials_seq(cs)),
    decreases cs, 0int,
{
    if cs.len() > 0 {
        lemma_raw_materials_are_raw(cs.drop_last());
        let m = raw_materials_seq(cs.drop_last());
        let c = cs.last();
        if c.components.len() > 0 {
            lemma_raw_materials_are_raw(c.components@);
            let o = raw_materials_of(c);
            assert forall|k: u32| #[trigger] merge_raw(m, o).contains_key(k) implies merge_raw(m, o)[k].components.len() == 0 by {
                if m.contains_key(k) {
                    assert(m[k].components.len() == 0);
                }
                if o.contains_key(k) {
                    assert(o[k].components.len() == 0);
                }
            }
        } else {
            let id = c.ptype_id.0;
            assert forall|k: u32| #[trigger] add_raw(m, c).contains_key(k) implies add_raw(m, c)[k].components.len() == 0 by {
                if k != id {
                    assert(m[k].components.len() == 0);
                } else if m.contains_key(id) {
                    assert(m[id].components.len() == 0);
                }
            }
        }
    }
}

proof fn lemma_raw_fits_prefix(cs: Seq<Dependency>, i: int)
    requires
        raw_fits_seq(cs),
        0 <= i <= cs.len(),
    ensures
        raw_fits_seq(cs.take(i)),
    decreases cs.len(),
{
    if i == cs.len() {
        assert(cs.take(i) =~= cs);
    } else {
        assert(cs.drop_last().take(i) =~= cs.take(i));
        lemma_raw_fits_prefix(cs.drop_last(), i);
    }
}

/// Products of a tree, each with the first node that makes it, the
/// quantity that all its nodes add up to and whether more than one node
/// makes it: `m` after those of `o` were added to it.
pub open spec fn merge_comp(m: Map<u32, (Dependency, int, bool)>, o: Map<u32, (Dependency, int, bool)>) -> Map<u32, (Dependency, int, bool)> {
    Map::new(
        |k: u32| m.contains_key(k) || o.contains_key(k),
        |k: u32|
            if m.contains_key(k) && o.contains_key(k) {
                (m[k].0, m[k].1 + o[k].1, true)
            } else if m.contains_key(k) {
                m[k]
            } else {
                o[k]
            },
    )
}

/// The product of `d` alone, with its quantity, made by this one node.
pub open spec fn comp_base(d: Dependency) -> Map<u32, (Dependency, int, bool)> {
    Map::empty().insert(d.ptype_id.0, (d, d.products as int, false))
}

/// The products that have to be built for `d`: `d` itself and, in turn,
/// those of each of its components that is built from something; each
/// with its first node and the quantity that all its nodes add up to.
pub open spec fn components_of(d: Dependency) -> Map<u32, (Dependency, int, bool)>
    decreases d, 1int,
{
    components_seq(d.components@, comp_base(d))
}

/// The products `base`, after those of the components `cs` that are built
/// from something were added, one after another.
pub open spec fn components_seq(cs: Seq<Dependency>, base: Map<u32, (Dependency, int, bool)>) -> Map<u32, (Dependency, int, bool)>
    decreases cs, 0int,
{
    if cs.len() == 0 {
        base
    } else {
        let m = components_seq(cs.drop_last(), base);
        let c = cs.last();
        if c.components.len() == 0 {
            m
        } else {
            merge_comp(m, components_of(c))
        }
    }
}

/// Collecting the products of `d` stays within the range of `i64`.
pub open spec fn comp_fits_of(d: Dependency) -> bool
    decreases d, 1int,
{
    comp_fits_seq(d.components@, comp_base(d))
}

/// Adding the products of the components `cs` to `base`, one after
/// another, stays within the range of `i64`.
pub open spec fn comp_fits_seq(cs: Seq<Dependency>, base: Map<u32, (Dependency, int, bool)>) -> bool
    decreases cs, 0int,
{
    if cs.len() == 0 {
        true
    } else {
        let m = components_seq(cs.drop_last(), base);
        let c = cs.last();
        &&& comp_fits_seq(cs.drop_last(), base)
        &&& c.components.len() > 0 ==> {
            &&& comp_fits_of(c)
            &&& forall|k: u32|
                m.contains_key(k) && #[trigger] components_of(c).contains_key(k)
                    ==> quantity_fits(m[k].0, m[k].1 + components_of(c)[k].1)
        }
    }
}

/// The group `s` holds the products `m`: one entry for each of them, with
/// the shape of its first node and the quantity that they add up to. A
/// product that one node makes is that node, unchanged; one that several
/// nodes make takes the time of the runs for its whole quantity.
pub open spec fn holds_products(s: Seq<Dependency>, m: Map<u32, (Dependency, int, bool)>) -> bool {
    &&& forall|k: u32| #[trigger] has_entry(s, k) <==> m.contains_key(k)
    &&& forall|k: u32| #[trigger] has_entry(s, k) ==> {
        &&& same_shape(m[k].0, entry_of(s, k))
        &&& entry_of(s, k).products == m[k].1
        &&& !m[k].2 ==> same_tree(entry_of(s, k), m[k].0)
        &&& m[k].2 ==> entry_of(s, k).time == runs_for(
            entry_of(s, k).products as int,
            entry_of(s, k).products_per_run as int,
        ) * entry_of(s, k).time_per_run
    }
}

/// The products of all entries `es` of a group, added one entry after
/// another.
pub open spec fn group_components(es: Seq<Dependency>) -> Map<u32, (Dependency, int, bool)>
    decreases es.len(),
{
    if es.len() == 0 {
        Map::empty()
    } else {
        merge_comp(group_components(es.drop_last()), components_of(es.last()))
    }
}

/// Flattening the entries `es` stays within the range of `i64`.
pub open spec fn group_fits(es: Seq<Dependency>) -> bool
    decreases es.len(),
{
    if es.len() == 0 {
        true
    } else {
        let m = group_components(es.drop_last());
        let c = es.last();
        &&& group_fits(es.drop_last())
        &&& comp_fits_of(c)
        &&& forall|k: u32|
            m.contains_key(k) && #[trigger] components_of(c).contains_key(k)
                ==> quantity_fits(m[k].0, m[k].1 + components_of(c)[k].1)
    }
}

proof fn lemma_group_fits_prefix(es: Seq<Dependency>, i: int)
    requires
        group_fits(es),
        0 <= i <= es.len(),
    ensures
        group_fits(es.take(i)),
    decreases es.len(),
{
    if i == es.len() {
        assert(es.take(i) =~= es);
    } else {
        assert(es.drop_last().take(i) =~= es.take(i));
        lemma_group_fits_prefix(es.drop_last(), i);
    }
}

proof fn lemma_comp_fits_prefix(cs: Seq<Dependency>, base: Map<u32, (Dependency, int, bool)>, i: int)
    requires
        comp_fits_seq(cs, base),
        0 <= i <= cs.len(),
    ensures
        comp_fits_seq(cs.take(i), base),
    decreases cs.len(),
{
    if i == cs.len() {
        assert(cs.take(i) =~= cs);
    } else {
        assert(cs.drop_last().take(i) =~= cs.take(i));
        lemma_comp_fits_prefix(cs.drop_last(), base, i);
    }
}

/// The product `id` is built in the tree of `d`: it is the product of `d`
/// or, in turn, of a component of `d` that is made from components of its
/// own.
pub open spec fn built_in_tree(d: Dependency, id: u32) -> bool
    decreases d,
{
    ||| d.ptype_id.0 == id
    ||| exists|i: int|
        0 <= i < d.components.len() && (#[trigger] d.components@[i]).components.len() > 0
            && built_in_tree(d.components@[i], id)
}

/// The products that building `d` takes are those built in its tree.
proof fn lemma_components_keys(d: Dependency, k: u32)
    ensures
        components_of(d).contains_key(k) <==> built_in_tree(d, k),
    decreases d, 1int,
{
    lemma_components_seq_keys(d.components@, comp_base(d), k);
}

/// The products that `base` and the components `cs` add up to are those of
/// `base` and those built in the tree of a component that is made from
/// components of its own.
proof fn lemma_components_seq_keys(cs: Seq<Dependency>, base: Map<u32, (Dependency, int, bool)>, k: u32)
    ensures
        components_seq(cs, base).contains_key(k) <==> (base.contains_key(k) || exists|i: int|
            0 <= i < cs.len() && (#[trigger] cs[i]).components.len() > 0 && built_in_tree(cs[i], k)),
    decreases cs, 0int,
{
    if cs.len() > 0 {
        let p = cs.drop_last();
        let c = cs.last();
        lemma_components_seq_keys(p, base, k);
        if c.components.len() > 0 {
            lemma_components_keys(c, k);
        }
        if exists|i: int| 0 <= i < cs.len() && (#[trigger] cs[i]).components.len() > 0 && built_in_tree(cs[i], k) {
            let i = choose|i: int| 0 <= i < cs.len() && (#[trigger] cs[i]).components.len() > 0 && built_in_tree(cs[i], k);
            if i < cs.len() - 1 {
                assert(p[i] == cs[i]);
            }
        }
        if exists|i: int| 0 <= i < p.len() && (#[trigger] p[i]).components.len() > 0 && built_in_tree(p[i], k) {
            let i = choose|i: int| 0 <= i < p.len() && (#[trigger] p[i]).components.len() > 0 && built_in_tree(p[i], k);
            assert(cs[i] == p[i]);
        }
        if c.components.len() > 0 && built_in_tree(c, k) {
            assert(cs[cs.len() - 1] == c);
        }
    }
}

/// Adding the products of the components `cs` leaves the entry of `base`
/// for a product that no component's tree builds as it is.
proof fn lemma_components_seq_keeps(cs: Seq<Dependency>, base: Map<u32, (Dependency, int, bool)>, k: u32)
    requires
        base.contains_key(k),
        forall|i: int| 0 <= i < cs.len() && (#[trigger] cs[i]).components.len() > 0 ==> !built_in_tree(cs[i], k),
    ensures
        components_seq(cs, base).contains_key(k),
        components_seq(cs, base)[k] == base[k],
    decreases cs.len(),
{
    if cs.len() > 0 {
        let c = cs.last();
        assert forall|i: int| 0 <= i < cs.drop_last().len() && (#[trigger] cs.drop_last()[i]).components.len() > 0 implies !built_in_tree(cs.drop_last()[i], k) by {
            assert(cs.drop_last()[i] == cs[i]);
        }
        lemma_components_seq_keeps(cs.drop_last(), base, k);
        if c.components.len() > 0 {
            assert(cs[cs.len() - 1] == c);
            lemma_components_keys(c, k);
        }
    }
}

/// Collecting the products of a tree gives an entry for exactly the
/// products built in it: the root's and, in turn, those of the components
/// that are made from components of their own.
pub proof fn collected_products_are_built(d: Dependency, s: Seq<Dependency>, k: u32)
    requires
        holds_products(s, components_of(d)),
    ensures
        has_entry(s, k) <==> built_in_tree(d, k),
{
    lemma_components_keys(d, k);
}

/// The quantity of the product `id` that the nodes built in the tree of
/// `d` add up to: that of `d` if it makes `id`, and those of the trees of
/// its components that are made from components of their own.
pub open spec fn built_total(d: Dependency, id: u32) -> int
    decreases d, 1int,
{
    (if d.ptype_id.0 == id { d.products as int } else { 0 }) + built_total_seq(d.components@, id)
}

/// The quantity of the product `id` that the trees of the components `cs`
/// that are made from components of their own add up to.
pub open spec fn built_total_seq(cs: Seq<Dependency>, id: u32) -> int
    decreases cs, 0int,
{
    if cs.len() == 0 {
        0
    } else {
        built_total_seq(cs.drop_last(), id) + if cs.last().components.len() > 0 {
            built_total(cs.last(), id)
        } else {
            0
        }
    }
}

/// The quantity that building `d` takes of a product is what its built
/// nodes add up to; of a product that it does not take, they add up to
/// nothing.
proof fn lemma_components_total(d: Dependency, k: u32)
    ensures
        components_of(d).contains_key(k) ==> components_of(d)[k].1 == built_total(d, k),
        !components_of(d).contains_key(k) ==> built_total(d, k) == 0,
    decreases d, 1int,
{
    lemma_components_seq_total(d.components@, comp_base(d), k);
}

/// The quantity that `base` and the components `cs` add up to, of a
/// product, is that of `base` and what the built nodes of the components
/// add up to.
proof fn lemma_components_seq_total(cs: Seq<Dependency>, base: Map<u32, (Dependency, int, bool)>, k: u32)
    ensures
        components_seq(cs, base).contains_key(k) ==> components_seq(cs, base)[k].1 == (if base.contains_key(k) {
            base[k].1
        } else {
            0
        }) + built_total_seq(cs, k),
        !components_seq(cs, base).contains_key(k) ==> !base.contains_key(k) && built_total_seq(cs, k) == 0,
    decreases cs, 0int,
{
    if cs.len() > 0 {
        let c = cs.last();
        lemma_components_seq_total(cs.drop_last(), base, k);
        if c.components.len() > 0 {
            lemma_components_total(c, k);
        }
    }
}

/// Collecting the products of a tree gives each product the quantity that
/// all the nodes built in the tree that make it add up to.
pub proof fn collected_quantities_add_up(d: Dependency, s: Seq<Dependency>, k: u32)
    requires
        holds_products(s, components_of(d)),
        has_entry(s, k),
    ensures
        entry_of(s, k).products == built_total(d, k),
{
    lemma_components_total(d, k);
}

/// The quantity of the product `id` that the nodes built in the trees of
/// all entries `es` of a group add up to.
pub open spec fn group_built_total(es: Seq<Dependency>, id: u32) -> int
    decreases es.len(),
{
    if es.len() == 0 {
        0
    } else {
        group_built_total(es.drop_last(), id) + built_total(es.last(), id)
    }
}

/// The products of all entries of a group are those built in the tree of
/// one of them, each with what the built nodes of all trees add up to.
proof fn lemma_group_components_total(es: Seq<Dependency>, k: u32)
    ensures
        group_components(es).contains_key(k) <==> exists|i: int| 0 <= i < es.len() && built_in_tree(#[trigger] es[i], k),
        group_components(es).contains_key(k) ==> group_components(es)[k].1 == group_built_total(es, k),
        !group_components(es).contains_key(k) ==> group_built_total(es, k) == 0,
    decreases es.len(),
{
    if es.len() > 0 {
        let p = es.drop_last();
        let c = es.last();
        lemma_group_components_total(p, k);
        lemma_components_total(c, k);
        lemma_components_keys(c, k);
        if exists|i: int| 0 <= i < es.len() && built_in_tree(#[trigger] es[i], k) {
            let i = choose|i: int| 0 <= i < es.len() && built_in_tree(#[trigger] es[i], k);
            if i < es.len() - 1 {
                assert(p[i] == es[i]);
            }
        }
        if exists|i: int| 0 <= i < p.len() && built_in_tree(#[trigger] p[i], k) {
            let i = choose|i: int| 0 <= i < p.len() && built_in_tree(#[trigger] p[i], k);
            assert(es[i] == p[i]);
        }
        if built_in_tree(c, k) {
            assert(es[es.len() - 1] == c);
        }
    }
}

/// Flattening a group gives an entry for exactly the products built in the
/// tree of one of its entries, each with the quantity that the nodes
/// built in all trees that make it add up to.
pub proof fn flattened_quantities_add_up(es: Seq<Dependency>, s: Seq<Dependency>, k: u32)
    requires
        holds_products(s, group_components(es)),
    ensures
        has_entry(s, k) <==> exists|i: int| 0 <= i < es.len() && built_in_tree(#[trigger] es[i], k),
        has_entry(s, k) ==> entry_of(s, k).products == group_built_total(es, k),
{
    lemma_group_components_total(es, k);
}

/// Collecting the products of a tree keeps its root as it is when no
/// component's tree builds the root's product again: the group's entry for
/// that product is the root with all its fields, among them its quantity
/// and the time of all its runs.
pub proof fn collected_root_is_kept(d: Dependency, s: Seq<Dependency>)
    requires
        holds_products(s, components_of(d)),
        forall|i: int|
            0 <= i < d.components.len() && (#[trigger] d.components@[i]).components.len() > 0
                ==> !built_in_tree(d.components@[i], d.ptype_id.0),
    ensures
        has_entry(s, d.ptype_id.0),
        same_tree(entry_of(s, d.ptype_id.0), d),
        entry_of(s, d.ptype_id.0).products == d.products,
        entry_of(s, d.ptype_id.0).time == d.time,
{
    lemma_components_seq_keeps(d.components@, comp_base(d), d.ptype_id.0);
    assert(has_entry(s, d.ptype_id.0));
}

/// Merges the groups `sub`, holding `o`, into `result`, holding `m`.
fn merge_products(
    result: &mut DependencyGroup,
    sub: DependencyGroup,
    Ghost(m): Ghost<Map<u32, (Dependency, int, bool)>>,
    Ghost(o): Ghost<Map<u32, (Dependency, int, bool)>>,
)
    requires
        old(result).wf(),
        sub.wf(),
        holds_products(old(result).entries(), m),
        holds_products(sub.entries(), o),
        forall|k: u32|
            m.contains_key(k) && #[trigger] o.contains_key(k) ==> quantity_fits(m[k].0, m[k].1 + o[k].1),
    ensures
        final(result).wf(),
        holds_products(final(result).entries(), merge_comp(m, o)),
{
    let ghost s0 = result.entries();
    let ghost so = sub.entries();
    proof {
        assert forall|k: u32| #[trigger] has_entry(so, k) && has_entry(s0, k) implies
            quantity_fits(entry_of(s0, k), entry_of(s0, k).products + entry_of(so, k).products) by {
            assert(o.contains_key(k));
            lemma_shape_quantity_fits(m[k].0, entry_of(s0, k), m[k].1 + o[k].1);
        }
    }
    result.merge(sub);
    proof {
        let s1 = result.entries();
        let m1 = merge_comp(m, o);
        assert forall|k: u32| #[trigger] has_entry(s1, k) <==> m1.contains_key(k) by {}
        assert forall|k: u32| #[trigger] has_entry(s1, k) implies {
            &&& same_shape(m1[k].0, entry_of(s1, k))
            &&& entry_of(s1, k).products == m1[k].1
            &&& !m1[k].2 ==> same_tree(entry_of(s1, k), m1[k].0)
            &&& m1[k].2 ==> entry_of(s1, k).time == runs_for(
                entry_of(s1, k).products as int,
                entry_of(s1, k).products_per_run as int,
            ) * entry_of(s1, k).time_per_run
        } by {
            if has_entry(so, k) {
                if has_entry(s0, k) {
                    let amount = entry_of(s0, k).products + entry_of(so, k).products;
                    lemma_quantity_set_shape(entry_of(s0, k), entry_of(s1, k), amount);
                    lemma_same_shape_trans(m[k].0, entry_of(s0, k), entry_of(s1, k));
                }
            }
        }
    }
}

impl Dependency {
    /// Collects all raw materials that building this dependency takes into
    /// a group: one entry per raw material, with the quantity that all its
    /// uses in the tree add up to.
    pub fn collect_raw_materials(&self) -> (r: DependencyGroup)
        requires
            raw_fits_of(*self),
        ensures
            r.wf(),
            holds_map(r.entries(), raw_materials_of(*self)),
        decreases self,
    {
        let mut result = DependencyGroup::new();
        let n = self.components.len();
        let ghost cs = self.components@;
        let mut i: usize = 0;
        assert(cs.take(0) =~= Seq::<Dependency>::empty());
        while i < n
            invariant
                n == self.components.len(),
                cs == self.components@,
                i <= n,
                raw_fits_seq(cs),
                result.wf(),
                holds_map(result.entries(), raw_materials_seq(cs.take(i as int))),
            decreases n - i,
        {
            let ghost prefix = cs.take(i as int);
            let ghost m = raw_materials_seq(prefix);
            let ghost s0 = result.entries();
            proof {
                assert(cs.take(i + 1).drop_last() =~= prefix);
                assert(cs.take(i + 1).last() == cs[i as int]);
                lemma_raw_fits_prefix(cs, i + 1);
                lemma_raw_materials_are_raw(prefix);
            }
            let material = &self.components[i];
            if material.components.len() == 0 {
                let c = material.clone();
                let ghost id = c.ptype_id.0;
                proof {
                    if has_entry(s0, id) {
                        assert(same_tree(entry_of(s0, id), m[id]));
                    }
                }
                result.add(c);
                proof {
                    let s1 = result.entries();
                    let m1 = add_raw(m, *material);
                    assert(m1 == raw_materials_seq(cs.take(i + 1)));
                    assert forall|k: u32| #[trigger] has_entry(s1, k) implies same_tree(entry_of(s1, k), m1[k]) by {
                        if k == id {
                            if has_entry(s0, id) {
                                assert(same_tree(entry_of(s0, id), m[id]));
                            }
                        } else {
                            assert(same_tree(entry_of(s0, k), m[k]));
                        }
                    }
                }
            } else {
                proof {
                    assert(raw_fits_of(*material));
                }
                let sub = material.collect_raw_materials();
                let ghost o = raw_materials_of(*material);
                proof {
                    lemma_raw_materials_are_raw(material.components@);
                    assert forall|k: u32| #[trigger] has_entry(sub.entries(), k) && has_entry(s0, k) implies
                        quantity_fits(
                            entry_of(s0, k),
                            entry_of(s0, k).products + entry_of(sub.entries(), k).products,
                        ) by {
                        assert(same_tree(entry_of(s0, k), m[k]));
                        assert(same_tree(entry_of(sub.entries(), k), o[k]));
                        assert(o.contains_key(k));
                    }
                }
                result.merge(sub);
                proof {
                    let s1 = result.entries();
                    let m1 = merge_raw(m, o);
                    assert(m1 == raw_materials_seq(cs.take(i + 1)));
                    assert forall|k: u32| #[trigger] has_entry(s1, k) <==> m1.contains_key(k) by {}
                    assert forall|k: u32| #[trigger] has_entry(s1, k) implies same_tree(entry_of(s1, k), m1[k]) by {
                        if has_entry(s0, k) {
                            assert(same_tree(entry_of(s0, k), m[k]));
                        }
                        if o.contains_key(k) {
                            assert(has_entry(sub.entries(), k));
                            assert(same_tree(entry_of(sub.entries(), k), o[k]));
                        }
                    }
                }
            }
            i += 1;
        }
        assert(cs.take(n as int) =~= cs);
        result
    }

    /// Collects the products that building this dependency takes into a
    /// group: the dependency itself and, in turn, the products of all its
    /// components that are built from something; one entry per product,
    /// with the quantity that all its uses add up to.
    pub fn collect_components(&self) -> (r: DependencyGroup)
        requires
            comp_fits_of(*self),
        ensures
            r.wf(),
            holds_products(r.entries(), components_of(*self)),
        decreases self,
    {
        let mut result = DependencyGroup::new();
        let me = self.clone();
        result.add(me);
        let ghost base = comp_base(*self);
        proof {
            let s = result.entries();
            lemma_same_tree_shape(me, *self);
            lemma_same_shape_sym(me, *self);
            assert forall|k: u32| #[trigger] has_entry(s, k) <==> base.contains_key(k) by {}
        }
        let n = self.components.len();
        let ghost cs = self.components@;
        let mut i: usize = 0;
        assert(cs.take(0) =~= Seq::<Dependency>::empty());
        while i < n
            invariant
                n == self.components.len(),
                cs == self.components@,
                base == comp_base(*self),
                i <= n,
                comp_fits_seq(cs, base),
                result.wf(),
                holds_products(result.entries(), components_seq(cs.take(i as int), base)),
            decreases n - i,
        {
            let ghost prefix = cs.take(i as int);
            let ghost m = components_seq(prefix, base);
            proof {
                assert(cs.take(i + 1).drop_last() =~= prefix);
                assert(cs.take(i + 1).last() == cs[i as int]);
                lemma_comp_fits_prefix(cs, base, i + 1);
            }
            let material = &self.components[i];
            if material.components.len() > 0 {
                let sub = material.collect_components();
                merge_products(&mut result, sub, Ghost(m), Ghost(components_of(*material)));
            }
            i += 1;
        }
        assert(cs.take(n as int) =~= cs);
        result
    }
}

impl DependencyGroup {
    /// Flattens the group into a single layer: the products of all its
    /// entries, one entry per product.
    pub fn collect_components(&self) -> (r: DependencyGroup)
        requires
            group_fits(self.entries()),
        ensures
            r.wf(),
            holds_products(r.entries(), group_components(self.entries())),
    {
        let mut result = DependencyGroup::new();
        let n = self.0.len();
        let ghost es = self.0@;
        let mut i: usize = 0;
        assert(es.take(0) =~= Seq::<Dependency>::empty());
        proof {
            assert forall|k: u32| #[trigger] has_entry(result.entries(), k) <==> group_components(es.take(0)).contains_key(k) by {}
        }
        while i < n
            invariant
                n == self.0.len(),
                es == self.0@,
                i <= n,
                group_fits(es),
                result.wf(),
                holds_products(result.entries(), group_components(es.take(i as int))),
            decreases n - i,
        {
            let ghost prefix = es.take(i as int);
            proof {
                assert(es.take(i + 1).drop_last() =~= prefix);
                assert(es.take(i + 1).last() == es[i as int]);
                lemma_group_fits_prefix(es, i + 1);
            }
            let sub = self.0[i].collect_components();
            merge_products(&mut result, sub, Ghost(group_components(prefix)), Ghost(components_of(es[i as int])));
            i += 1;
        }
        assert(es.take(n as int) =~= es);
        result
    }
}

} // verus!
