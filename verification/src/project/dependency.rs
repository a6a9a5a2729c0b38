//! Production dependencies: a product, the quantities that are needed of it
//! and, recursively, the components that it is built from.

pub mod cache;
pub mod collect;
pub mod group;

use vstd::prelude::*;
use std::collections::HashMap;
use std::collections::HashSet;
use crate::eve::group_data::{CategoryId, GroupId};
use crate::eve::type_data::TypeId;

verus! {

/// Represents a single dependency and its required materials.
#[derive(Debug, PartialEq, Eq)]
pub struct Dependency {
    /// Name of the product
    pub name: String,
    /// Type of the product
    pub ptype_id: TypeId,
    /// Category of the item
    pub category_id: CategoryId,
    /// Group of the item
    pub group_id: GroupId,
    /// Number of products to produce
    pub products: i64,
    /// Base requirements for building a single run
    pub products_base: i64,
    /// Quantity that is produced with each iteration
    pub products_per_run: i64,
    /// Total time it takes for all runs
    pub time: i64,
    /// Time it takes to run one production cycle
    pub time_per_run: i64,
    /// Materials that are required to build this component
    pub components: Vec<Dependency>,
}

/// Ceiling of `n / d` for a positive `d`.
pub open spec fn ceil_div(n: int, d: int) -> int
    recommends
        d > 0,
{
    -((-n) / d)
}

/// `v` saturated to the range of `i64`.
pub open spec fn saturate_i64(v: int) -> int {
    if v > i64::MAX {
        i64::MAX as int
    } else if v < i64::MIN {
        i64::MIN as int
    } else {
        v
    }
}

/// Number of production runs that yield `products` items when every run
/// yields `per_run` items: the quotient rounded up, saturated to `i64`.
/// Without a yield per run, any positive demand saturates to the largest
/// count and any negative demand to the smallest.
pub open spec fn runs_for(products: int, per_run: int) -> int {
    if per_run == 0 {
        if products > 0 {
            i64::MAX as int
        } else if products == 0 {
            0
        } else {
            i64::MIN as int
        }
    } else if per_run > 0 {
        saturate_i64(ceil_div(products, per_run))
    } else {
        saturate_i64(ceil_div(-products, -per_run))
    }
}

proof fn lemma_ceil_div_nonneg(n: int, d: int)
    requires
        n >= 0,
        d > 0,
    ensures
        (n + d - 1) / d == ceil_div(n, d),
        0 <= ceil_div(n, d) <= n,
{
    let q = (n + d - 1) / d;
    let r = (n + d - 1) % d;
    vstd::arithmetic::div_mod::lemma_fundamental_div_mod(n + d - 1, d);
    assert(0 <= r < d);
    assert(-n == (-q) * d + (d - 1 - r)) by (nonlinear_arith)
        requires
            n + d - 1 == d * q + r,
    ;
    vstd::arithmetic::div_mod::lemma_fundamental_div_mod_converse(-n, d, -q, d - 1 - r);
    assert(0 <= q) by (nonlinear_arith)
        requires
            n + d - 1 == d * q + r,
            0 <= r < d,
            n >= 0,
            d > 0,
    ;
    assert(q <= n) by (nonlinear_arith)
        requires
            n + d - 1 == d * q + r,
            0 <= r < d,
            n >= 0,
            d > 0,
    ;
}

proof fn lemma_ceil_div_neg(n: int, d: int)
    requires
        n < 0,
        d > 0,
    ensures
        ceil_div(n, d) == -((-n) / d),
        n <= ceil_div(n, d) <= 0,
{
    vstd::arithmetic::div_mod::lemma_fundamental_div_mod(-n, d);
    let q = (-n) / d;
    let r = (-n) % d;
    assert(0 <= q <= -n) by (nonlinear_arith)
        requires
            -n == d * q + r,
            0 <= r < d,
            -n > 0,
            d > 0,
    ;
}

/// Number of runs for `products` items at `per_run` items per run,
/// computed without floating point.
pub fn runs_needed(products: i64, per_run: i64) -> (r: i64)
    ensures
        r == runs_for(products as int, per_run as int),
{
    if per_run == 0 {
        if products > 0 {
            return i64::MAX;
        } else if products == 0 {
            return 0;
        } else {
            return i64::MIN;
        }
    }
    let n: i128 = if per_run > 0 { products as i128 } else { -(products as i128) };
    let d: i128 = if per_run > 0 { per_run as i128 } else { -(per_run as i128) };
    let q: i128 = if n >= 0 {
        proof {
            lemma_ceil_div_nonneg(n as int, d as int);
        }
        (n + d - 1) / d
    } else {
        proof {
            lemma_ceil_div_neg(n as int, d as int);
        }
        -((-n) / d)
    };
    if q > i64::MAX as i128 {
        i64::MAX
    } else if q < i64::MIN as i128 {
        i64::MIN
    } else {
        q as i64
    }
}

/// The number of runs that a dependency needs for its products.
pub open spec fn spec_runs(d: Dependency) -> int {
    runs_for(d.products as int, d.products_per_run as int)
}

/// Fields that a recalculation leaves as they are.
pub open spec fn same_identity(a: Dependency, b: Dependency) -> bool {
    &&& a.name == b.name
    &&& a.ptype_id == b.ptype_id
    &&& a.category_id == b.category_id
    &&& a.group_id == b.group_id
    &&& a.products_base == b.products_base
    &&& a.products_per_run == b.products_per_run
    &&& a.time_per_run == b.time_per_run
}

/// `new` is `old` after its parent asked for `runs` runs: it needs
/// `runs` times its base quantity and time, and its own components are
/// recalculated for the runs that this quantity takes.
pub open spec fn recalculated(old: Dependency, new: Dependency, runs: int) -> bool
    decreases old,
{
    &&& same_identity(old, new)
    &&& new.time == runs * old.time_per_run
    &&& new.products == runs * old.products_base
    &&& new.components.len() == old.components.len()
    &&& forall|i: int|
        0 <= i < old.components.len() ==> recalculated(
            #[trigger] old.components@[i],
            new.components@[i],
            runs_for(runs * old.products_base, old.products_per_run as int),
        )
}

/// Recalculating `d` for `runs` runs stays within the range of `i64`
/// everywhere in its tree.
pub open spec fn recalc_fits(d: Dependency, runs: int) -> bool
    decreases d,
{
    &&& i64::MIN <= runs * d.time_per_run <= i64::MAX
    &&& i64::MIN <= runs * d.products_base <= i64::MAX
    &&& forall|i: int|
        0 <= i < d.components.len() ==> recalc_fits(
            #[trigger] d.components@[i],
            runs_for(runs * d.products_base, d.products_per_run as int),
        )
}

/// Every component of `old` is recalculated for `runs` runs of `old`.
pub open spec fn components_recalculated(old: Dependency, new: Dependency, runs: int) -> bool {
    &&& new.components.len() == old.components.len()
    &&& forall|i: int|
        0 <= i < old.components.len() ==> recalculated(
            old.components@[i],
            #[trigger] new.components@[i],
            runs,
        )
}

/// Recalculating every component of `d` for `runs` runs stays within the
/// range of `i64`.
pub open spec fn components_fit(d: Dependency, runs: int) -> bool {
    forall|i: int| 0 <= i < d.components.len() ==> recalc_fits(#[trigger] d.components@[i], runs)
}

/// Setting the total products of `d` to `amount` stays within the range of
/// `i64`.
pub open spec fn quantity_fits(d: Dependency, amount: int) -> bool {
    let runs = runs_for(amount, d.products_per_run as int);
    &&& i64::MIN <= amount <= i64::MAX
    &&& i64::MIN <= runs * d.time_per_run <= i64::MAX
    &&& components_fit(d, runs)
}

/// `new` is `old` with `amount` products in total, the time of the runs
/// that this takes, and all components recalculated for these runs.
pub open spec fn quantity_set(old: Dependency, new: Dependency, amount: int) -> bool {
    let runs = runs_for(amount, old.products_per_run as int);
    &&& same_identity(old, new)
    &&& new.products == amount
    &&& new.time == runs * old.time_per_run
    &&& components_recalculated(old, new, runs)
}

/// Material efficiency applied to a required quantity: from ten items on,
/// `bonus` percent of the quantity, rounded down, is saved.
pub open spec fn material_reduced(products: int, bonus: int) -> int {
    if products >= 10 {
        products - (products * bonus) / 100
    } else {
        products
    }
}

/// The material efficiency of a product, if the bonus map names it.
pub open spec fn bonus_of(d: Dependency, bonus: Map<u32, u8>) -> Option<int> {
    if bonus.contains_key(d.ptype_id.0) {
        Some(bonus[d.ptype_id.0] as int)
    } else {
        None
    }
}

/// `new` is `old` with material bonuses applied below it: each component
/// of a product that the map names needs its quantity reduced by the
/// product's bonus, and the same holds, recursively, for every component.
/// Everything else is kept.
pub open spec fn material_bonus_applied(old: Dependency, new: Dependency, bonus: Map<u32, u8>) -> bool
    decreases old,
{
    &&& same_identity(old, new)
    &&& new.time == old.time
    &&& new.components.len() == old.components.len()
    &&& forall|i: int|
        0 <= i < old.components.len() ==> {
            &&& (#[trigger] new.components@[i]).products == match bonus_of(old, bonus) {
                Some(b) => material_reduced(old.components@[i].products as int, b),
                None => old.components@[i].products as int,
            }
            &&& material_bonus_applied(old.components@[i], new.components@[i], bonus)
        }
}

/// Applying the material bonuses below `d` stays within the range of `i64`.
pub open spec fn material_bonus_fits(d: Dependency, bonus: Map<u32, u8>) -> bool
    decreases d,
{
    forall|i: int|
        0 <= i < d.components.len() ==> {
            &&& match bonus_of(d, bonus) {
                Some(b) => i64::MIN <= material_reduced(
                    (#[trigger] d.components@[i]).products as int,
                    b,
                ),
                None => true,
            }
            &&& material_bonus_fits(d.components@[i], bonus)
        }
}

/// `b` is the material efficiency that the map holds for `d`, if any.
pub open spec fn bonus_byte(d: Dependency, bonus: Map<u32, u8>, b: Option<u8>) -> bool {
    match b {
        Some(x) => bonus_of(d, bonus) == Some(x as int),
        None => bonus_of(d, bonus) is None,
    }
}

/// `x` percent of `v`, rounded to the nearest integer, halves away from
/// zero.
pub open spec fn percent_rounded(v: int, x: int) -> int {
    let p = v * x;
    if p >= 0 {
        (p + 50) / 100
    } else {
        -((-p + 50) / 100)
    }
}

/// The runs that a product's time bonus is applied over: its runs, but at
/// least one.
pub open spec fn bonus_runs(d: Dependency) -> int {
    if spec_runs(d) == 0 {
        1
    } else {
        spec_runs(d)
    }
}

/// Time efficiency applied to a component: its time for all `runs` runs of
/// the parent, less `bonus` percent of it.
pub open spec fn time_reduced(runs: int, time_per_run: int, bonus: int) -> int {
    runs * time_per_run - percent_rounded(runs * time_per_run, bonus)
}

/// `new` is `old` with time bonuses applied below it: each component of a
/// product that the map names gets the reduced time of all the product's
/// runs as its time per run, and the same holds, recursively, for every
/// component. Everything else is kept.
pub open spec fn time_bonus_applied(old: Dependency, new: Dependency, bonus: Map<u32, u8>) -> bool
    decreases old,
{
    &&& new.name == old.name
    &&& new.ptype_id == old.ptype_id
    &&& new.category_id == old.category_id
    &&& new.group_id == old.group_id
    &&& new.products_base == old.products_base
    &&& new.products_per_run == old.products_per_run
    &&& new.products == old.products
    &&& new.time == old.time
    &&& new.components.len() == old.components.len()
    &&& forall|i: int|
        0 <= i < old.components.len() ==> {
            &&& (#[trigger] new.components@[i]).time_per_run == match bonus_of(old, bonus) {
                Some(b) => time_reduced(bonus_runs(old), old.components@[i].time_per_run as int, b),
                None => old.components@[i].time_per_run as int,
            }
            &&& time_bonus_applied(old.components@[i], new.components@[i], bonus)
        }
}

/// Applying the time bonuses below `d` stays within the range of `i64`.
pub open spec fn time_bonus_fits(d: Dependency, bonus: Map<u32, u8>) -> bool
    decreases d,
{
    forall|i: int|
        0 <= i < d.components.len() ==> {
            &&& match bonus_of(d, bonus) {
                Some(b) => {
                    &&& i64::MIN <= bonus_runs(d) * (#[trigger] d.components@[i]).time_per_run <= i64::MAX
                    &&& i64::MIN <= time_reduced(bonus_runs(d), d.components@[i].time_per_run as int, b) <= i64::MAX
                },
                None => true,
            }
            &&& time_bonus_fits(d.components@[i], bonus)
        }
}

/// `a` and `b` hold the same tree: the same fields at every node.
pub open spec fn same_tree(a: Dependency, b: Dependency) -> bool
    decreases a,
{
    &&& same_identity(a, b)
    &&& a.products == b.products
    &&& a.time == b.time
    &&& a.components.len() == b.components.len()
    &&& forall|i: int|
        0 <= i < a.components.len() ==> same_tree(#[trigger] a.components@[i], b.components@[i])
}

/// The product `id` occurs somewhere in the tree of `d`, `d` included.
pub open spec fn in_tree(d: Dependency, id: u32) -> bool
    decreases d,
{
    ||| d.ptype_id.0 == id
    ||| exists|i: int| 0 <= i < d.components.len() && in_tree(#[trigger] d.components@[i], id)
}

/// No type id occurs twice in `s`.
pub open spec fn distinct_ids(s: Seq<TypeId>) -> bool {
    forall|i: int, j: int| 0 <= i < j < s.len() ==> s[i] != s[j]
}

/// Build order of the components of `d`, given the products that are
/// already `seen`: the order of its components, where each that is built
/// from something and not seen before comes after its own build order.
pub open spec fn build_order_of(d: Dependency, seen: Set<u32>) -> (Seq<Dependency>, Set<u32>)
    decreases d, 1int,
{
    build_order_seq(d.components@, seen)
}

/// Build order of the dependencies `cs`, in sequence, given the products
/// that are already `seen`; also the products seen afterwards.
pub open spec fn build_order_seq(cs: Seq<Dependency>, seen: Set<u32>) -> (Seq<Dependency>, Set<u32>)
    decreases cs, 0int,
{
    if cs.len() == 0 {
        (Seq::empty(), seen)
    } else {
        let (out, seen1) = build_order_seq(cs.drop_last(), seen);
        let dep = cs.last();
        if seen1.contains(dep.ptype_id.0) || dep.components.len() == 0 {
            (out, seen1)
        } else {
            let (sub, seen2) = build_order_of(dep, seen1.insert(dep.ptype_id.0));
            (out + sub.push(dep), seen2)
        }
    }
}

/// `a` and `b` hold the same trees, one by one.
pub open spec fn same_trees(a: Seq<Dependency>, b: Seq<Dependency>) -> bool {
    &&& a.len() == b.len()
    &&& forall|i: int| 0 <= i < a.len() ==> same_tree(#[trigger] a[i], b[i])
}

/// After the quantity of a product was set, it takes the runs that its
/// quantity needs, and so does its time: the time of one run for each run;
/// and each component is needed its base quantity once for each run.
pub proof fn components_follow_runs(old: Dependency, new: Dependency, amount: int)
    requires
        quantity_set(old, new, amount),
    ensures
        spec_runs(new) == runs_for(amount, old.products_per_run as int),
        new.time == spec_runs(new) * new.time_per_run,
        new.components.len() == old.components.len(),
        forall|i: int|
            0 <= i < new.components.len() ==> (#[trigger] new.components@[i]).products == spec_runs(new)
                * new.components@[i].products_base,
{
    assert forall|i: int| 0 <= i < new.components.len() implies (#[trigger] new.components@[i]).products == spec_runs(new)
        * new.components@[i].products_base by {
        assert(recalculated(old.components@[i], new.components@[i], runs_for(amount, old.products_per_run as int)));
    }
}

/// With `d` items per run, `c` runs are the fewest that yield `p` items
/// when `p` lies above `c - 1` runs' yield and within `c` runs' yield.
proof fn lemma_ceil_div_exact(p: int, d: int, c: int)
    requires
        d > 0,
        (c - 1) * d < p <= c * d,
    ensures
        ceil_div(p, d) == c,
{
    vstd::arithmetic::div_mod::lemma_fundamental_div_mod(-p, d);
    let q = (-p) / d;
    let rem = (-p) % d;
    assert(0 <= rem < d);
    assert(q == -c) by (nonlinear_arith)
        requires
            -p == d * q + rem,
            0 <= rem < d,
            d > 0,
            (c - 1) * d < p <= c * d,
    ;
}

/// Material efficiency saves, on each component of ten items or more of a
/// product that the map names, the product's bonus in percent of the
/// component's quantity, rounded down: a quantity `q` becomes `n` with
/// `100 * (q - n) <= q * b < 100 * (q - n) + 100`. Smaller quantities, and
/// the components of products that the map does not name, are kept. The
/// same holds, in turn, of every component's own tree.
pub proof fn material_bonus_saves_percent(old: Dependency, new: Dependency, bonus: Map<u32, u8>)
    requires
        material_bonus_applied(old, new, bonus),
    ensures
        new.components.len() == old.components.len(),
        forall|i: int|
            0 <= i < old.components.len() ==> material_bonus_applied(
                old.components@[i],
                #[trigger] new.components@[i],
                bonus,
            ),
        forall|i: int|
            0 <= i < old.components.len() ==> {
                let q = old.components@[i].products as int;
                let n = (#[trigger] new.components@[i]).products as int;
                if bonus.contains_key(old.ptype_id.0) && q >= 10 {
                    let b = bonus[old.ptype_id.0] as int;
                    100 * (q - n) <= q * b < 100 * (q - n) + 100
                } else {
                    n == q
                }
            },
{
    assert forall|i: int| 0 <= i < old.components.len() implies {
        let q = old.components@[i].products as int;
        let n = (#[trigger] new.components@[i]).products as int;
        if bonus.contains_key(old.ptype_id.0) && q >= 10 {
            let b = bonus[old.ptype_id.0] as int;
            100 * (q - n) <= q * b < 100 * (q - n) + 100
        } else {
            n == q
        }
    } by {
        let q = old.components@[i].products as int;
        if bonus.contains_key(old.ptype_id.0) && q >= 10 {
            let b = bonus[old.ptype_id.0] as int;
            vstd::arithmetic::div_mod::lemma_fundamental_div_mod(q * b, 100);
        }
    }
}

/// Time efficiency is taken over all the runs of the product that the map
/// names. With `r` runs, the fewest that yield the product's quantity and at
/// least one, a component's time per run `t` becomes the time `n` of all
/// `r` runs less the bonus `b` in percent of it, rounded to the nearest
/// unit, halves away from zero: `100 * (r * t - n)` lies within fifty of
/// `r * t * b`. The components of products that the map does not name keep
/// their time per run. The same holds, in turn, of every component's own
/// tree.
pub proof fn time_bonus_covers_all_runs(old: Dependency, new: Dependency, bonus: Map<u32, u8>, r: int)
    requires
        time_bonus_applied(old, new, bonus),
        old.products_per_run > 0,
        r >= 1,
        old.products <= r * old.products_per_run,
        r == 1 || (r - 1) * old.products_per_run < old.products,
        -old.products_per_run < old.products,
    ensures
        new.components.len() == old.components.len(),
        forall|i: int|
            0 <= i < old.components.len() ==> time_bonus_applied(
                old.components@[i],
                #[trigger] new.components@[i],
                bonus,
            ),
        forall|i: int|
            0 <= i < old.components.len() ==> {
                let t = old.components@[i].time_per_run as int;
                let n = (#[trigger] new.components@[i]).time_per_run as int;
                if bonus.contains_key(old.ptype_id.0) {
                    let p = r * t * (bonus[old.ptype_id.0] as int);
                    if p >= 0 {
                        p - 50 < 100 * (r * t - n) <= p + 50
                    } else {
                        p - 50 <= 100 * (r * t - n) < p + 50
                    }
                } else {
                    n == t
                }
            },
{
    let ppr = old.products_per_run as int;
    let prod = old.products as int;
    if prod > (r - 1) * ppr {
        lemma_ceil_div_exact(prod, ppr, r);
        assert(r <= prod) by (nonlinear_arith)
            requires
                (r - 1) * ppr < prod,
                ppr >= 1,
                r >= 1,
        ;
        assert(ceil_div(prod, ppr) == r);
        assert(spec_runs(old) == r);
    } else {
        assert(r == 1);
        lemma_ceil_div_exact(prod, ppr, 0);
        assert(spec_runs(old) == 0);
    }
    assert(bonus_runs(old) == r);
    assert forall|i: int| 0 <= i < old.components.len() implies {
        let t = old.components@[i].time_per_run as int;
        let n = (#[trigger] new.components@[i]).time_per_run as int;
        if bonus.contains_key(old.ptype_id.0) {
            let p = r * t * (bonus[old.ptype_id.0] as int);
            if p >= 0 {
                p - 50 < 100 * (r * t - n) <= p + 50
            } else {
                p - 50 <= 100 * (r * t - n) < p + 50
            }
        } else {
            n == t
        }
    } by {
        if bonus.contains_key(old.ptype_id.0) {
            let t = old.components@[i].time_per_run as int;
            let b = bonus[old.ptype_id.0] as int;
            let p = r * t * b;
            if p >= 0 {
                vstd::arithmetic::div_mod::lemma_fundamental_div_mod(p + 50, 100);
            } else {
                vstd::arithmetic::div_mod::lemma_fundamental_div_mod(-p + 50, 100);
            }
        }
    }
}

/// Every tree is the same as itself.
pub proof fn lemma_same_tree_refl(a: Dependency)
    ensures
        same_tree(a, a),
    decreases a,
{
    assert forall|i: int| 0 <= i < a.components.len() implies same_tree(#[trigger] a.components@[i], a.components@[i]) by {
        lemma_same_tree_refl(a.components@[i]);
    }
}

/// Holding the same tree is symmetric.
pub proof fn lemma_same_tree_sym(a: Dependency, b: Dependency)
    requires
        same_tree(a, b),
    ensures
        same_tree(b, a),
    decreases a,
{
    assert forall|i: int| 0 <= i < b.components.len() implies same_tree(#[trigger] b.components@[i], a.components@[i]) by {
        lemma_same_tree_sym(a.components@[i], b.components@[i]);
    }
}

/// Recalculations of the same tree for the same runs hold the same tree.
pub proof fn lemma_recalculated_same(o1: Dependency, o2: Dependency, a: Dependency, b: Dependency, runs: int)
    requires
        same_tree(o1, o2),
        recalculated(o1, a, runs),
        recalculated(o2, b, runs),
    ensures
        same_tree(a, b),
    decreases o1,
{
    let r = runs_for(runs * o1.products_base, o1.products_per_run as int);
    assert forall|i: int| 0 <= i < a.components.len() implies same_tree(#[trigger] a.components@[i], b.components@[i]) by {
        lemma_recalculated_same(o1.components@[i], o2.components@[i], a.components@[i], b.components@[i], r);
    }
}

/// Adding `amount` to the products of a copy of `d` gives the same tree as
/// setting the products of another copy of `d` to their sum: both set the
/// quantity to the sum, and setting a quantity has one outcome.
pub proof fn add_matches_set(
    d: Dependency,
    for_add: Dependency,
    for_set: Dependency,
    via_add: Dependency,
    via_set: Dependency,
    amount: i64,
)
    requires
        same_tree(for_add, d),
        same_tree(for_set, d),
        quantity_set(for_add, via_add, for_add.products + amount),
        quantity_set(for_set, via_set, d.products + amount),
    ensures
        same_tree(via_add, via_set),
        via_add.products == d.products + amount,
{
    lemma_same_tree_sym(for_set, d);
    lemma_same_tree_trans(for_add, d, for_set);
    let runs = runs_for(d.products + amount, d.products_per_run as int);
    assert forall|i: int| 0 <= i < via_add.components.len() implies same_tree(#[trigger] via_add.components@[i], via_set.components@[i]) by {
        assert(same_tree(for_add.components@[i], for_set.components@[i]));
        lemma_recalculated_same(for_add.components@[i], for_set.components@[i], via_add.components@[i], via_set.components@[i], runs);
    }
}

/// Holding the same tree is transitive.
pub proof fn lemma_same_tree_trans(a: Dependency, b: Dependency, c: Dependency)
    requires
        same_tree(a, b),
        same_tree(b, c),
    ensures
        same_tree(a, c),
    decreases a,
{
    assert forall|i: int| 0 <= i < a.components.len() implies same_tree(#[trigger] a.components@[i], c.components@[i]) by {
        lemma_same_tree_trans(a.components@[i], b.components@[i], c.components@[i]);
    }
}

/// Holding the same trees is transitive.
pub proof fn lemma_same_trees_trans(a: Seq<Dependency>, b: Seq<Dependency>, c: Seq<Dependency>)
    requires
        same_trees(a, b),
        same_trees(b, c),
    ensures
        same_trees(a, c),
{
    assert forall|i: int| 0 <= i < a.len() implies same_tree(#[trigger] a[i], c[i]) by {
        lemma_same_tree_trans(a[i], b[i], c[i]);
    }
}

/// Trees that are the same have the same build order.
pub proof fn lemma_build_order_of_same(a: Dependency, b: Dependency, seen: Set<u32>)
    requires
        same_tree(a, b),
    ensures
        same_trees(build_order_of(a, seen).0, build_order_of(b, seen).0),
        build_order_of(a, seen).1 == build_order_of(b, seen).1,
    decreases a, 1int,
{
    lemma_build_order_seq_same(a.components@, b.components@, seen);
}

/// Sequences of the same trees have the same build order.
pub proof fn lemma_build_order_seq_same(a: Seq<Dependency>, b: Seq<Dependency>, seen: Set<u32>)
    requires
        same_trees(a, b),
    ensures
        same_trees(build_order_seq(a, seen).0, build_order_seq(b, seen).0),
        build_order_seq(a, seen).1 == build_order_seq(b, seen).1,
    decreases a, 0int,
{
    if a.len() > 0 {
        assert(same_trees(a.drop_last(), b.drop_last())) by {
            assert forall|i: int| 0 <= i < a.drop_last().len() implies same_tree(#[trigger] a.drop_last()[i], b.drop_last()[i]) by {
                assert(same_tree(a[i], b[i]));
            }
        }
        lemma_build_order_seq_same(a.drop_last(), b.drop_last(), seen);
        let (out_a, seen_a) = build_order_seq(a.drop_last(), seen);
        let (out_b, seen_b) = build_order_seq(b.drop_last(), seen);
        let da = a.last();
        let db = b.last();
        assert(same_tree(a[a.len() - 1], b[b.len() - 1]));
        if !(seen_a.contains(da.ptype_id.0) || da.components.len() == 0) {
            let s1 = seen_a.insert(da.ptype_id.0);
            lemma_build_order_of_same(da, db, s1);
            let sub_a = build_order_of(da, s1).0;
            let sub_b = build_order_of(db, s1).0;
            let ra = out_a + sub_a.push(da);
            let rb = out_b + sub_b.push(db);
            assert forall|i: int| 0 <= i < ra.len() implies same_tree(#[trigger] ra[i], rb[i]) by {
                if i < out_a.len() {
                    assert(same_tree(out_a[i], out_b[i]));
                } else if i < out_a.len() + sub_a.len() {
                    assert(same_tree(sub_a[i - out_a.len()], sub_b[i - out_a.len()]));
                }
            }
        }
    }
}

/// No product in the tree of `d` is one of `above`, and no product occurs
/// twice on a path from `d` down to a raw material.
pub open spec fn path_distinct(d: Dependency, above: Set<u32>) -> bool
    decreases d,
{
    &&& !above.contains(d.ptype_id.0)
    &&& forall|i: int|
        0 <= i < d.components.len() ==> path_distinct(#[trigger] d.components@[i], above.insert(d.ptype_id.0))
}

/// Some entry of `out` is for the product `id`.
pub open spec fn lists_product(out: Seq<Dependency>, id: u32) -> bool {
    exists|j: int| 0 <= j < out.len() && out[j].ptype_id.0 == id
}

/// Some entry of `out` before position `i` is for the product `id`.
pub open spec fn listed_before(out: Seq<Dependency>, i: int, id: u32) -> bool {
    exists|j: int| 0 <= j < i && out[j].ptype_id.0 == id
}

/// What a build order from the products `seen` on guarantees: no product
/// twice and none of `seen`, only products that are built from something,
/// and each component of an entry that is built from something is in
/// `seen` or comes earlier.
pub open spec fn orders_builds(out: Seq<Dependency>, seen: Set<u32>) -> bool {
    &&& forall|i: int, j: int| 0 <= i < j < out.len() ==> out[i].ptype_id != out[j].ptype_id
    &&& forall|i: int| 0 <= i < out.len() ==> !seen.contains(#[trigger] out[i].ptype_id.0)
    &&& forall|i: int| 0 <= i < out.len() ==> (#[trigger] out[i]).components.len() > 0
    &&& forall|i: int, k: int|
        0 <= i < out.len() && 0 <= k < out[i].components.len()
            && (#[trigger] out[i].components@[k]).components.len() > 0
            ==> seen.contains(out[i].components@[k].ptype_id.0) || listed_before(out, i, out[i].components@[k].ptype_id.0)
}

/// The induction behind the build order of a sequence of dependencies.
proof fn lemma_build_order_seq_orders(cs: Seq<Dependency>, seen: Set<u32>, above: Set<u32>)
    requires
        forall|m: int| 0 <= m < cs.len() ==> path_distinct(#[trigger] cs[m], above),
    ensures
        ({
            let (out, seen1) = build_order_seq(cs, seen);
            &&& forall|x: u32| #[trigger] seen1.contains(x) <==> (seen.contains(x) || lists_product(out, x))
            &&& orders_builds(out, seen)
            &&& forall|i: int, k: int|
                0 <= i < out.len() && 0 <= k < out[i].components.len()
                    ==> !above.contains((#[trigger] out[i].components@[k]).ptype_id.0)
            &&& forall|m: int| 0 <= m < cs.len() && (#[trigger] cs[m]).components.len() > 0 ==> seen1.contains(cs[m].ptype_id.0)
        }),
    decreases cs, 0int,
{
    if cs.len() > 0 {
        let rest = cs.drop_last();
        assert forall|m: int| 0 <= m < rest.len() implies path_distinct(#[trigger] rest[m], above) by {
            assert(path_distinct(cs[m], above));
        }
        lemma_build_order_seq_orders(rest, seen, above);
        let (out0, seen0) = build_order_seq(rest, seen);
        let dep = cs.last();
        assert(path_distinct(cs[cs.len() - 1], above));
        if seen0.contains(dep.ptype_id.0) || dep.components.len() == 0 {
            assert forall|m: int| 0 <= m < cs.len() && (#[trigger] cs[m]).components.len() > 0 implies seen0.contains(cs[m].ptype_id.0) by {
                if m < rest.len() {
                    assert(rest[m] == cs[m]);
                }
            }
        } else {
            let id = dep.ptype_id.0;
            let s1 = seen0.insert(id);
            let above1 = above.insert(id);
            assert forall|m: int| 0 <= m < dep.components.len() implies path_distinct(#[trigger] dep.components@[m], above1) by {}
            lemma_build_order_seq_orders(dep.components@, s1, above1);
            let (sub, seen2) = build_order_seq(dep.components@, s1);
            assert(build_order_of(dep, s1) == build_order_seq(dep.components@, s1));
            assert(cs.drop_last() == rest);
            let sp = sub.push(dep);
            let out = out0 + sp;
            assert(build_order_seq(cs, seen) == (out, seen2));
            assert forall|i: int| 0 <= i < out.len() implies #[trigger] out[i] == (if i < out0.len() { out0[i] } else if i < out0.len() + sub.len() { sub[i - out0.len()] } else { dep }) by {}
            assert forall|x: u32| #[trigger] seen2.contains(x) <==> (seen.contains(x) || lists_product(out, x)) by {
                if lists_product(out0, x) {
                    let j = choose|j: int| 0 <= j < out0.len() && out0[j].ptype_id.0 == x;
                    assert(out[j] == out0[j]);
                }
                if lists_product(sub, x) {
                    let j = choose|j: int| 0 <= j < sub.len() && sub[j].ptype_id.0 == x;
                    assert(out[out0.len() + j] == sub[j]);
                }
                if x == id {
                    assert(out[out.len() - 1] == dep);
                }
                if lists_product(out, x) {
                    let j = choose|j: int| 0 <= j < out.len() && out[j].ptype_id.0 == x;
                    if j < out0.len() {
                        assert(lists_product(out0, x));
                    } else if j < out0.len() + sub.len() {
                        assert(sub[j - out0.len()].ptype_id.0 == x);
                        assert(lists_product(sub, x));
                    }
                }
            }
            assert forall|i: int, j: int| 0 <= i < j < out.len() implies out[i].ptype_id != out[j].ptype_id by {
                if j < out0.len() {
                } else if j < out0.len() + sub.len() {
                    if i >= out0.len() {
                    } else {
                        assert(lists_product(out0, out0[i].ptype_id.0));
                        assert(!s1.contains(sub[j - out0.len()].ptype_id.0));
                    }
                } else {
                    if i < out0.len() {
                        assert(lists_product(out0, out0[i].ptype_id.0));
                    } else {
                        assert(!s1.contains(sub[i - out0.len()].ptype_id.0));
                    }
                }
            }
            assert forall|i: int| 0 <= i < out.len() implies !seen.contains(#[trigger] out[i].ptype_id.0) by {
                if out0.len() <= i < out0.len() + sub.len() {
                    assert(!s1.contains(sub[i - out0.len()].ptype_id.0));
                }
            }
            assert forall|i: int, k: int|
                0 <= i < out.len() && 0 <= k < out[i].components.len()
                    implies !above.contains((#[trigger] out[i].components@[k]).ptype_id.0) by {
                if i < out0.len() {
                } else if i < out0.len() + sub.len() {
                    assert(sub[i - out0.len()].components@[k] == out[i].components@[k]);
                } else {
                    assert(path_distinct(dep.components@[k], above1));
                }
            }
            assert forall|i: int, k: int|
                0 <= i < out.len() && 0 <= k < out[i].components.len()
                    && (#[trigger] out[i].components@[k]).components.len() > 0
                    implies seen.contains(out[i].components@[k].ptype_id.0) || listed_before(out, i, out[i].components@[k].ptype_id.0) by {
                let c = out[i].components@[k];
                let cid = c.ptype_id.0;
                if i < out0.len() {
                    if listed_before(out0, i, cid) {
                        let j = choose|j: int| 0 <= j < i && out0[j].ptype_id.0 == cid;
                        assert(out[j] == out0[j]);
                    }
                } else if i < out0.len() + sub.len() {
                    let ii = i - out0.len();
                    assert(sub[ii].components@[k] == c);
                    assert(!above1.contains(cid));
                    if s1.contains(cid) {
                        assert(seen0.contains(cid));
                        if lists_product(out0, cid) {
                            let j = choose|j: int| 0 <= j < out0.len() && out0[j].ptype_id.0 == cid;
                            assert(out[j] == out0[j]);
                        }
                    } else {
                        assert(listed_before(sub, ii, cid));
                        let j = choose|j: int| 0 <= j < ii && sub[j].ptype_id.0 == cid;
                        assert(out[out0.len() + j] == sub[j]);
                    }
                } else {
                    assert(c == dep.components@[k]);
                    assert(seen2.contains(cid));
                    assert(path_distinct(dep.components@[k], above1));
                    assert(cid != id);
                    if lists_product(out, cid) {
                        let j = choose|j: int| 0 <= j < out.len() && out[j].ptype_id.0 == cid;
                        assert(j != out.len() - 1);
                        assert(listed_before(out, i, cid));
                    }
                }
            }
            assert forall|m: int| 0 <= m < cs.len() && (#[trigger] cs[m]).components.len() > 0 implies seen2.contains(cs[m].ptype_id.0) by {
                if m < rest.len() {
                    assert(rest[m] == cs[m]);
                    assert(seen0.contains(cs[m].ptype_id.0));
                    assert(lists_product(out0, cs[m].ptype_id.0) || seen.contains(cs[m].ptype_id.0));
                    if lists_product(out0, cs[m].ptype_id.0) {
                        let j = choose|j: int| 0 <= j < out0.len() && out0[j].ptype_id.0 == cs[m].ptype_id.0;
                        assert(out[j] == out0[j]);
                    }
                } else {
                    assert(out[out.len() - 1] == dep);
                }
            }
        }
    }
}

/// A build order lists no product twice and only products that are built
/// from something; each product that one of its entries needs and that is
/// itself built from something comes before that entry; and every given
/// dependency that is built from something is listed. This holds of trees
/// in which no product occurs twice on a path down to a raw material.
pub proof fn build_order_is_sound(cs: Seq<Dependency>)
    requires
        forall|m: int| 0 <= m < cs.len() ==> path_distinct(#[trigger] cs[m], Set::empty()),
    ensures
        orders_builds(build_order_seq(cs, Set::empty()).0, Set::empty()),
        forall|m: int|
            0 <= m < cs.len() && (#[trigger] cs[m]).components.len() > 0
                ==> lists_product(build_order_seq(cs, Set::empty()).0, cs[m].ptype_id.0),
{
    lemma_build_order_seq_orders(cs, Set::empty(), Set::empty());
    let (out, seen1) = build_order_seq(cs, Set::empty());
    assert forall|m: int|
        0 <= m < cs.len() && (#[trigger] cs[m]).components.len() > 0 implies lists_product(out, cs[m].ptype_id.0) by {
        assert(seen1.contains(cs[m].ptype_id.0));
    }
}

/// `a` and `b` have the same shape: the same product, base quantities
/// and times at every node, whatever their current quantities.
pub open spec fn same_shape(a: Dependency, b: Dependency) -> bool
    decreases a,
{
    &&& same_identity(a, b)
    &&& a.components.len() == b.components.len()
    &&& forall|i: int|
        0 <= i < a.components.len() ==> same_shape(#[trigger] a.components@[i], b.components@[i])
}

/// The same tree has the same shape.
pub proof fn lemma_same_tree_shape(a: Dependency, b: Dependency)
    requires
        same_tree(a, b),
    ensures
        same_shape(a, b),
    decreases a,
{
    assert forall|i: int| 0 <= i < a.components.len() implies same_shape(#[trigger] a.components@[i], b.components@[i]) by {
        lemma_same_tree_shape(a.components@[i], b.components@[i]);
    }
}

/// Having the same shape is transitive.
pub proof fn lemma_same_shape_trans(a: Dependency, b: Dependency, c: Dependency)
    requires
        same_shape(a, b),
        same_shape(b, c),
    ensures
        same_shape(a, c),
    decreases a,
{
    assert forall|i: int| 0 <= i < a.components.len() implies same_shape(#[trigger] a.components@[i], c.components@[i]) by {
        lemma_same_shape_trans(a.components@[i], b.components@[i], c.components@[i]);
    }
}

/// Having the same shape is symmetric.
pub proof fn lemma_same_shape_sym(a: Dependency, b: Dependency)
    requires
        same_shape(a, b),
    ensures
        same_shape(b, a),
    decreases a,
{
    assert forall|i: int| 0 <= i < b.components.len() implies same_shape(#[trigger] b.components@[i], a.components@[i]) by {
        lemma_same_shape_sym(a.components@[i], b.components@[i]);
    }
}

/// A recalculation keeps the shape of a tree.
pub proof fn lemma_recalculated_shape(old: Dependency, new: Dependency, runs: int)
    requires
        recalculated(old, new, runs),
    ensures
        same_shape(old, new),
    decreases old,
{
    assert forall|i: int| 0 <= i < old.components.len() implies same_shape(#[trigger] old.components@[i], new.components@[i]) by {
        lemma_recalculated_shape(
            old.components@[i],
            new.components@[i],
            runs_for(runs * old.products_base, old.products_per_run as int),
        );
    }
}

/// Setting the quantity keeps the shape of a tree.
pub proof fn lemma_quantity_set_shape(old: Dependency, new: Dependency, amount: int)
    requires
        quantity_set(old, new, amount),
    ensures
        same_shape(old, new),
{
    let runs = runs_for(amount, old.products_per_run as int);
    assert forall|i: int| 0 <= i < old.components.len() implies same_shape(#[trigger] old.components@[i], new.components@[i]) by {
        lemma_recalculated_shape(old.components@[i], new.components@[i], runs);
    }
}

/// Whether a recalculation fits in `i64` depends on the shape alone.
pub proof fn lemma_shape_recalc_fits(a: Dependency, b: Dependency, runs: int)
    requires
        same_shape(a, b),
    ensures
        recalc_fits(a, runs) == recalc_fits(b, runs),
    decreases a,
{
    let r = runs_for(runs * a.products_base, a.products_per_run as int);
    assert forall|i: int| 0 <= i < a.components.len() implies recalc_fits(#[trigger] a.components@[i], r) == recalc_fits(b.components@[i], r) by {
        lemma_shape_recalc_fits(a.components@[i], b.components@[i], r);
    }
    if recalc_fits(a, runs) {
        assert forall|i: int| 0 <= i < b.components.len() implies recalc_fits(#[trigger] b.components@[i], r) by {
            assert(recalc_fits(a.components@[i], r));
        }
    }
    if recalc_fits(b, runs) {
        assert forall|i: int| 0 <= i < a.components.len() implies recalc_fits(#[trigger] a.components@[i], r) by {
            assert(recalc_fits(b.components@[i], r));
        }
    }
}

/// Whether setting a quantity fits in `i64` depends on the shape alone.
pub proof fn lemma_shape_quantity_fits(a: Dependency, b: Dependency, amount: int)
    requires
        same_shape(a, b),
    ensures
        quantity_fits(a, amount) == quantity_fits(b, amount),
{
    let runs = runs_for(amount, a.products_per_run as int);
    assert forall|i: int| 0 <= i < a.components.len() implies recalc_fits(#[trigger] a.components@[i], runs) == recalc_fits(b.components@[i], runs) by {
        lemma_shape_recalc_fits(a.components@[i], b.components@[i], runs);
    }
    if components_fit(a, runs) {
        assert forall|i: int| 0 <= i < b.components.len() implies recalc_fits(#[trigger] b.components@[i], runs) by {
            assert(recalc_fits(a.components@[i], runs));
        }
    }
    if components_fit(b, runs) {
        assert forall|i: int| 0 <= i < a.components.len() implies recalc_fits(#[trigger] a.components@[i], runs) by {
            assert(recalc_fits(b.components@[i], runs));
        }
    }
}

impl Clone for Dependency {
    fn clone(&self) -> (r: Self)
        ensures
            same_tree(r, *self),
        decreases self,
    {
        let mut components: Vec<Dependency> = Vec::new();
        let n = self.components.len();
        let mut i: usize = 0;
        while i < n
            invariant
                n == self.components.len(),
                i <= n,
                components.len() == i,
                forall|j: int| 0 <= j < i ==> same_tree(#[trigger] components@[j], self.components@[j]),
            decreases n - i,
        {
            components.push(self.components[i].clone());
            i += 1;
        }
        Dependency {
            name: self.name.clone(),
            ptype_id: self.ptype_id,
            category_id: self.category_id,
            group_id: self.group_id,
            products: self.products,
            products_base: self.products_base,
            products_per_run: self.products_per_run,
            time: self.time,
            time_per_run: self.time_per_run,
            components,
        }
    }
}

impl Dependency {
    /// Recalculates every component for `runs` runs of this dependency.
    fn recalculate_components(&mut self, runs: i64)
        requires
            components_fit(*old(self), runs as int),
        ensures
            components_recalculated(*old(self), *final(self), runs as int),
            final(self).name == old(self).name,
            final(self).ptype_id == old(self).ptype_id,
            final(self).category_id == old(self).category_id,
            final(self).group_id == old(self).group_id,
            final(self).products == old(self).products,
            final(self).products_base == old(self).products_base,
            final(self).products_per_run == old(self).products_per_run,
            final(self).time == old(self).time,
            final(self).time_per_run == old(self).time_per_run,
    {
        let n = self.components.len();
        let mut i: usize = 0;
        while i < n
            invariant
                n == self.components.len(),
                n == old(self).components.len(),
                self.name == old(self).name,
                self.ptype_id == old(self).ptype_id,
                self.category_id == old(self).category_id,
                self.group_id == old(self).group_id,
                self.products == old(self).products,
                self.products_base == old(self).products_base,
                self.products_per_run == old(self).products_per_run,
                self.time == old(self).time,
                self.time_per_run == old(self).time_per_run,
                components_fit(*old(self), runs as int),
                forall|j: int| 0 <= j < i ==> recalculated(old(self).components@[j], #[trigger] self.components@[j], runs as int),
                forall|j: int| i <= j < n ==> self.components@[j] == old(self).components@[j],
            decreases n - i,
        {
            assert(recalc_fits(old(self).components@[i as int], runs as int));
            self.components[i].recalculate_runs(runs);
            i += 1;
        }
    }

    /// Adds the given amount to the total number of products and
    /// recalculates the time and all components afterwards.
    pub fn add_product_quantity(&mut self, amount: i64)
        requires
            quantity_fits(*old(self), old(self).products + amount),
        ensures
            quantity_set(*old(self), *final(self), old(self).products + amount),
    {
        self.products = self.products + amount;
        let runs = runs_needed(self.products, self.products_per_run);
        assert(self.time_per_run * runs == runs * self.time_per_run) by (nonlinear_arith);
        self.time = self.time_per_run * runs;
        self.recalculate_components(runs);
    }

    /// Sets the total number of products to the given amount and
    /// recalculates the time and all components afterwards.
    pub fn set_product_quantity(&mut self, amount: i64)
        requires
            quantity_fits(*old(self), amount as int),
        ensures
            quantity_set(*old(self), *final(self), amount as int),
    {
        self.products = amount;
        let runs = runs_needed(self.products, self.products_per_run);
        self.time = runs * self.time_per_run;
        self.recalculate_components(runs);
    }

    /// Calculates the number of runs required.
    pub fn runs(&self) -> (r: i64)
        ensures
            r == spec_runs(*self),
    {
        runs_needed(self.products, self.products_per_run)
    }

    /// Adds a material bonus to all required materials. The map takes a
    /// product's type id to its material efficiency in percent.
    ///
    /// This must be done after the required amount of items is added.
    pub fn apply_material_bonus(&mut self, bonus: &HashMap<u32, u8>)
        requires
            material_bonus_fits(*old(self), bonus@),
        ensures
            material_bonus_applied(*old(self), *final(self), bonus@),
            final(self).products == old(self).products,
        decreases *old(self),
    {
        let b: Option<u8> = match bonus.get(&self.ptype_id.0) {
            Some(x) => Some(*x),
            None => None,
        };
        assert(bonus_byte(*old(self), bonus@, b));
        let n = self.components.len();
        let mut i: usize = 0;
        while i < n
            invariant
                n == self.components.len(),
                n == old(self).components.len(),
                same_identity(*old(self), *self),
                self.time == old(self).time,
                self.products == old(self).products,
                material_bonus_fits(*old(self), bonus@),
                bonus_byte(*old(self), bonus@, b),
                forall|j: int| 0 <= j < i ==> {
                    &&& (#[trigger] self.components@[j]).products == match bonus_of(*old(self), bonus@) {
                        Some(x) => material_reduced(old(self).components@[j].products as int, x),
                        None => old(self).components@[j].products as int,
                    }
                    &&& material_bonus_applied(old(self).components@[j], self.components@[j], bonus@)
                },
                forall|j: int| i <= j < n ==> self.components@[j] == old(self).components@[j],
            decreases n - i,
        {
            let ghost child = old(self).components@[i as int];
            assert(material_bonus_fits(child, bonus@));
            self.components[i].apply_material_bonus(bonus);
            if let Some(x) = b {
                let p = self.components[i].products;
                if p >= 10 {
                    let reduced: i128 = (p as i128) - ((p as i128) * (x as i128)) / 100;
                    assert(reduced == material_reduced(p as int, x as int));
                    self.components[i].products = reduced as i64;
                }
            }
            i += 1;
        }
    }

    /// Applies time bonuses below this dependency. The map takes a
    /// product's type id to its time efficiency in percent.
    ///
    /// This must be done after the required amount of items is added.
    pub fn apply_time_bonus(&mut self, bonus: &HashMap<u32, u8>)
        requires
            time_bonus_fits(*old(self), bonus@),
        ensures
            time_bonus_applied(*old(self), *final(self), bonus@),
            final(self).time_per_run == old(self).time_per_run,
        decreases *old(self),
    {
        let b: Option<u8> = match bonus.get(&self.ptype_id.0) {
            Some(x) => Some(*x),
            None => None,
        };
        let n = self.components.len();
        let mut i: usize = 0;
        while i < n
            invariant
                n == self.components.len(),
                n == old(self).components.len(),
                same_identity(*old(self), *self),
                self.time == old(self).time,
                self.products == old(self).products,
                self.time_per_run == old(self).time_per_run,
                time_bonus_fits(*old(self), bonus@),
                bonus_byte(*old(self), bonus@, b),
                forall|j: int| 0 <= j < i ==> {
                    &&& (#[trigger] self.components@[j]).time_per_run == match bonus_of(*old(self), bonus@) {
                        Some(x) => time_reduced(bonus_runs(*old(self)), old(self).components@[j].time_per_run as int, x),
                        None => old(self).components@[j].time_per_run as int,
                    }
                    &&& time_bonus_applied(old(self).components@[j], self.components@[j], bonus@)
                },
                forall|j: int| i <= j < n ==> self.components@[j] == old(self).components@[j],
            decreases n - i,
        {
            let ghost child = old(self).components@[i as int];
            assert(time_bonus_fits(child, bonus@));
            self.components[i].apply_time_bonus(bonus);
            if let Some(x) = b {
                let runs = runs_needed(self.products, self.products_per_run);
                let runs = if runs == 0 { 1 } else { runs };
                let total = runs * self.components[i].time_per_run;
                let v: i128 = (total as i128) * (x as i128);
                let rounded: i128 = if v >= 0 { (v + 50) / 100 } else { -((-v + 50) / 100) };
                let reduced: i128 = (total as i128) - rounded;
                assert(reduced == time_reduced(bonus_runs(*old(self)), child.time_per_run as int, x as int));
                self.components[i].time_per_run = reduced as i64;
            }
            i += 1;
        }
    }

    /// Adds the type id of every product in this tree to `acc` that is not
    /// in it yet.
    fn collect_ptype_ids_into(&self, acc: &mut Vec<TypeId>)
        requires
            distinct_ids(old(acc)@),
        ensures
            distinct_ids(final(acc)@),
            forall|t: TypeId| #[trigger] final(acc)@.contains(t) <==> (old(acc)@.contains(t) || in_tree(*self, t.0)),
        decreases self,
    {
        let mut found = false;
        let mut k: usize = 0;
        while k < acc.len()
            invariant
                k <= acc.len(),
                found <==> exists|j: int| 0 <= j < k && acc@[j] == self.ptype_id,
            decreases acc.len() - k,
        {
            if acc[k] == self.ptype_id {
                found = true;
            }
            k += 1;
        }
        if !found {
            acc.push(self.ptype_id);
            assert(acc@ == old(acc)@.push(self.ptype_id));
            assert forall|t: TypeId| #[trigger] acc@.contains(t) <==> (old(acc)@.contains(t) || t == self.ptype_id) by {
                if acc@.contains(t) {
                    let j = choose|j: int| 0 <= j < acc@.len() && acc@[j] == t;
                    if j < old(acc)@.len() {
                        assert(old(acc)@[j] == t);
                    }
                }
                if old(acc)@.contains(t) {
                    let j = choose|j: int| 0 <= j < old(acc)@.len() && old(acc)@[j] == t;
                    assert(acc@[j] == t);
                }
                if t == self.ptype_id {
                    assert(acc@[acc@.len() - 1] == t);
                }
            }
        } else {
            proof {
                let j = choose|j: int| 0 <= j < k && acc@[j] == self.ptype_id;
                assert(old(acc)@.contains(self.ptype_id));
            }
        }
        let ghost start = acc@;
        assert(start.contains(self.ptype_id));
        let n = self.components.len();
        let mut i: usize = 0;
        while i < n
            invariant
                n == self.components.len(),
                i <= n,
                distinct_ids(acc@),
                forall|t: TypeId| #[trigger] acc@.contains(t) <==> (start.contains(t) || exists|j: int| 0 <= j < i && in_tree(#[trigger] self.components@[j], t.0)),
                forall|t: TypeId| #[trigger] start.contains(t) <==> (old(acc)@.contains(t) || t == self.ptype_id),
            decreases n - i,
        {
            self.components[i].collect_ptype_ids_into(acc);
            assert forall|t: TypeId| #[trigger] acc@.contains(t) <==> (start.contains(t) || exists|j: int| 0 <= j < i + 1 && in_tree(#[trigger] self.components@[j], t.0)) by {
                if in_tree(self.components@[i as int], t.0) {
                    assert(exists|j: int| 0 <= j < i + 1 && in_tree(#[trigger] self.components@[j], t.0));
                }
                if exists|j: int| 0 <= j < i + 1 && in_tree(#[trigger] self.components@[j], t.0) {
                    let j = choose|j: int| 0 <= j < i + 1 && in_tree(#[trigger] self.components@[j], t.0);
                    if j < i {
                        assert(exists|j: int| 0 <= j < i && in_tree(#[trigger] self.components@[j], t.0));
                    }
                }
            }
            i += 1;
        }
        assert forall|t: TypeId| #[trigger] acc@.contains(t) <==> (old(acc)@.contains(t) || in_tree(*self, t.0)) by {
            if in_tree(*self, t.0) && t != self.ptype_id {
                assert(t.0 != self.ptype_id.0);
                let j = choose|j: int| 0 <= j < self.components.len() && in_tree(#[trigger] self.components@[j], t.0);
                assert(exists|j: int| 0 <= j < n && in_tree(#[trigger] self.components@[j], t.0));
            }
        }
    }

    /// Collects all type ids that are required to build the dependency,
    /// the type id of the dependency itself included, each once.
    pub fn collect_ptype_ids(&self) -> (r: Vec<TypeId>)
        ensures
            distinct_ids(r@),
            forall|t: TypeId| #[trigger] r@.contains(t) <==> in_tree(*self, t.0),
    {
        let mut acc: Vec<TypeId> = Vec::new();
        self.collect_ptype_ids_into(&mut acc);
        acc
    }

    /// Build order of the components of this dependency, skipping the
    /// products in `seen` and adding each one that it takes.
    fn inner_sort(&self, seen: &mut HashSet<u32>) -> (r: Vec<Dependency>)
        ensures
            same_trees(r@, build_order_of(*self, old(seen)@).0),
            final(seen)@ == build_order_of(*self, old(seen)@).1,
        decreases self,
    {
        let ghost seen0 = seen@;
        let mut inverted: Vec<Dependency> = Vec::new();
        let n = self.components.len();
        let mut i: usize = 0;
        assert(self.components@.take(0) =~= Seq::<Dependency>::empty());
        while i < n
            invariant
                n == self.components.len(),
                i <= n,
                same_trees(inverted@, build_order_seq(self.components@.take(i as int), seen0).0),
                seen@ == build_order_seq(self.components@.take(i as int), seen0).1,
            decreases n - i,
        {
            let ghost prefix = self.components@.take(i as int);
            let ghost before = inverted@;
            assert(self.components@.take(i + 1).drop_last() =~= prefix);
            assert(self.components@.take(i + 1).last() == self.components@[i as int]);
            let dep = &self.components[i];
            if seen.contains(&dep.ptype_id.0) {
            } else if dep.components.len() == 0 {
            } else {
                seen.insert(dep.ptype_id.0);
                let mut sub = dep.inner_sort(seen);
                let ghost sub_view = sub@;
                inverted.append(&mut sub);
                inverted.push(dep.clone());
                proof {
                    let spec_prev = build_order_seq(prefix, seen0).0;
                    let spec_sub = build_order_of(*dep, build_order_seq(prefix, seen0).1.insert(dep.ptype_id.0)).0;
                    let target = spec_prev + spec_sub.push(*dep);
                    assert(inverted@ == before + sub_view + seq![inverted@.last()]);
                    assert forall|k: int| 0 <= k < target.len() implies same_tree(#[trigger] inverted@[k], target[k]) by {
                        if k < before.len() {
                            assert(inverted@[k] == before[k]);
                        } else if k < before.len() + sub_view.len() {
                            assert(inverted@[k] == sub_view[k - before.len()]);
                            assert(target[k] == spec_sub[k - before.len()]);
                        } else {
                            assert(target[k] == *dep);
                        }
                    }
                }
            }
            i += 1;
        }
        assert(self.components@.take(n as int) =~= self.components@);
        inverted
    }

    /// Sorts the components into a build order: every component that is
    /// built from something comes after its own build order, each product
    /// once, and components that are built from nothing are left out.
    pub fn sort(&mut self)
        ensures
            same_trees(final(self).components@, build_order_of(*old(self), Set::empty()).0),
            final(self).name == old(self).name,
            final(self).ptype_id == old(self).ptype_id,
            final(self).category_id == old(self).category_id,
            final(self).group_id == old(self).group_id,
            final(self).products == old(self).products,
            final(self).products_base == old(self).products_base,
            final(self).products_per_run == old(self).products_per_run,
            final(self).time == old(self).time,
            final(self).time_per_run == old(self).time_per_run,
    {
        let mut empty: HashSet<u32> = HashSet::new();
        let sorted = self.inner_sort(&mut empty);
        self.components = sorted;
    }

    /// A dependency that only holds the given dependencies: an artificial
    /// root, with every other field empty.
    pub fn with_dependencies(deps: Vec<Dependency>) -> (r: Self)
        ensures
            r.name@ == Seq::<char>::empty(),
            r.ptype_id == TypeId(0),
            r.category_id == CategoryId(0),
            r.group_id == GroupId(0),
            r.products == 0,
            r.products_base == 0,
            r.products_per_run == 0,
            r.time == 0,
            r.time_per_run == 0,
            r.components == deps,
    {
        Dependency {
            name: String::new(),
            ptype_id: TypeId(0),
            category_id: CategoryId(0),
            group_id: GroupId(0),
            products: 0,
            products_base: 0,
            products_per_run: 0,
            time: 0,
            time_per_run: 0,
            components: deps,
        }
    }

    /// Propagates the number of runs down from the end product and
    /// recalculates the number of required runs for all components.
    pub fn recalculate_runs(&mut self, runs: i64)
        requires
            recalc_fits(*old(self), runs as int),
        ensures
            recalculated(*old(self), *final(self), runs as int),
        decreases *old(self),
    {
        self.time = runs * self.time_per_run;
        self.products = runs * self.products_base;
        let r = runs_needed(self.products, self.products_per_run);
        let n = self.components.len();
        let mut i: usize = 0;
        while i < n
            invariant
                n == self.components.len(),
                n == old(self).components.len(),
                same_identity(*old(self), *self),
                self.time == runs * old(self).time_per_run,
                self.products == runs * old(self).products_base,
                r == runs_for(runs * old(self).products_base, old(self).products_per_run as int),
                recalc_fits(*old(self), runs as int),
                forall|j: int| 0 <= j < i ==> recalculated(old(self).components@[j], #[trigger] self.components@[j], r as int),
                forall|j: int| i <= j < n ==> self.components@[j] == old(self).components@[j],
            decreases n - i,
        {
            assert(recalc_fits(old(self).components@[i as int], r as int));
            self.components[i].recalculate_runs(r);
            i += 1;
        }
    }
}

} // verus!
