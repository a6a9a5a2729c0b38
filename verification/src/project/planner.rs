//! Which products enter the tree of the second production planner, and
//! which of them take blueprint bonuses.

use vstd::prelude::*;
use crate::project::bonus::BlueprintTyp;

verus! {

/// A product of the second planner, with what decides which products
/// enter its tree: its type, blueprint, yield, kind and components.
#[derive(Debug)]
pub struct PlannedDependency {
    pub ptype_id: u32,
    pub btype_id: u32,
    pub produces: u32,
    pub typ: BlueprintTyp,
    pub components: Vec<PlannedDependency>,
}

/// The fuel blocks, which the planner takes as they are: their components
/// are not planned.
pub open spec fn skips_components(id: u32) -> bool {
    id == 4051 || id == 4246 || id == 4247 || id == 4312
}

/// The product `id` enters the tree of `d`: it is `d`, or it enters the
/// tree of a component of `d`, unless `d` is a fuel block.
pub open spec fn enters_tree(d: PlannedDependency, id: u32) -> bool
    decreases d,
{
    ||| d.ptype_id == id
    ||| !skips_components(d.ptype_id) && exists|i: int|
        0 <= i < d.components.len() && enters_tree(#[trigger] d.components@[i], id)
}

/// The fuel blocks 4051, 4246, 4247 and 4312 enter a tree alone: nothing
/// that their components are made of is planned with them.
pub proof fn fuel_blocks_enter_alone(d: PlannedDependency, id: u32)
    requires
        d.ptype_id == 4051 || d.ptype_id == 4246 || d.ptype_id == 4247 || d.ptype_id == 4312,
    ensures
        enters_tree(d, id) <==> id == d.ptype_id,
{
}

/// Any other product brings the products of all its components into the
/// tree: each component enters it, and so does all that enters the
/// component's tree.
pub proof fn other_products_bring_components(d: PlannedDependency, i: int, id: u32)
    requires
        d.ptype_id != 4051 && d.ptype_id != 4246 && d.ptype_id != 4247 && d.ptype_id != 4312,
        0 <= i < d.components.len(),
        enters_tree(d.components@[i], id),
    ensures
        enters_tree(d, id),
{
}

/// No product occurs twice in `s`.
pub open spec fn distinct_products(s: Seq<u32>) -> bool {
    forall|i: int, j: int| 0 <= i < j < s.len() ==> s[i] != s[j]
}

/// Whether a fuel block is `id`.
fn is_fuel_block(id: u32) -> (r: bool)
    ensures
        r == skips_components(id),
{
    id == 4051 || id == 4246 || id == 4247 || id == 4312
}

/// Adds every product of the tree of `d` that is not in `acc` yet.
fn tree_products_into(d: &PlannedDependency, acc: &mut Vec<u32>)
    requires
        distinct_products(old(acc)@),
    ensures
        distinct_products(final(acc)@),
        forall|t: u32| #[trigger] final(acc)@.contains(t) <==> (old(acc)@.contains(t) || enters_tree(*d, t)),
    decreases d,
{
    let mut found = false;
    let mut k: usize = 0;
    while k < acc.len()
        invariant
            k <= acc.len(),
            found <==> exists|j: int| 0 <= j < k && acc@[j] == d.ptype_id,
        decreases acc.len() - k,
    {
        if acc[k] == d.ptype_id {
            found = true;
        }
        k += 1;
    }
    if !found {
        acc.push(d.ptype_id);
        assert forall|t: u32| #[trigger] acc@.contains(t) <==> (old(acc)@.contains(t) || t == d.ptype_id) by {
            if acc@.contains(t) {
                let j = choose|j: int| 0 <= j < acc@.len() && acc@[j] == t;
                if j < old(acc)@.len() {
                    assert(old(acc)@[j] == t);
                }
            }
            if old(acc)@.contains(t) {
                let j = choose|j: int| 0 <= j < old(acc)@.len() && old(acc)@[j] == t;
                assert(acc@[j] == t);
            }
            if t == d.ptype_id {
                assert(acc@[acc@.len() - 1] == t);
            }
        }
    } else {
        proof {
            let j = choose|j: int| 0 <= j < k && acc@[j] == d.ptype_id;
            assert(old(acc)@.contains(d.ptype_id));
        }
    }
    let ghost start = acc@;
    assert(start.contains(d.ptype_id));
    if is_fuel_block(d.ptype_id) {
        assert forall|t: u32| #[trigger] acc@.contains(t) <==> (old(acc)@.contains(t) || enters_tree(*d, t)) by {}
        return;
    }
    let n = d.components.len();
    let mut i: usize = 0;
    while i < n
        invariant
            n == d.components.len(),
            i <= n,
            distinct_products(acc@),
            forall|t: u32| #[trigger] acc@.contains(t) <==> (start.contains(t) || exists|j: int| 0 <= j < i && enters_tree(#[trigger] d.components@[j], t)),
            forall|t: u32| #[trigger] start.contains(t) <==> (old(acc)@.contains(t) || t == d.ptype_id),
        decreases n - i,
    {
        tree_products_into(&d.components[i], acc);
        assert forall|t: u32| #[trigger] acc@.contains(t) <==> (start.contains(t) || exists|j: int| 0 <= j < i + 1 && enters_tree(#[trigger] d.components@[j], t)) by {
            if enters_tree(d.components@[i as int], t) {
                assert(exists|j: int| 0 <= j < i + 1 && enters_tree(#[trigger] d.components@[j], t));
            }
            if exists|j: int| 0 <= j < i + 1 && enters_tree(#[trigger] d.components@[j], t) {
                let j = choose|j: int| 0 <= j < i + 1 && enters_tree(#[trigger] d.components@[j], t);
                if j < i {
                    assert(exists|j: int| 0 <= j < i && enters_tree(#[trigger] d.components@[j], t));
                }
            }
        }
        i += 1;
    }
    assert forall|t: u32| #[trigger] acc@.contains(t) <==> (old(acc)@.contains(t) || enters_tree(*d, t)) by {
        if enters_tree(*d, t) && t != d.ptype_id {
            let j = choose|j: int| 0 <= j < d.components.len() && enters_tree(#[trigger] d.components@[j], t);
            assert(exists|j: int| 0 <= j < n && enters_tree(#[trigger] d.components@[j], t));
        }
    }
}

/// The products that enter the planner's tree when `d` is added to it:
/// `d` and, in turn, the products of its components, where the components
/// of fuel blocks are left out; each product once.
pub fn tree_products(d: &PlannedDependency) -> (r: Vec<u32>)
    ensures
        distinct_products(r@),
        forall|t: u32| #[trigger] r@.contains(t) <==> enters_tree(*d, t),
{
    let mut acc: Vec<u32> = Vec::new();
    tree_products_into(d, &mut acc);
    acc
}

/// The products of the tree `entries` that take blueprint bonuses: all
/// that are not reactions, in order.
pub open spec fn bonus_products(entries: Seq<(u32, BlueprintTyp)>) -> Seq<u32>
    decreases entries.len(),
{
    if entries.len() == 0 {
        Seq::empty()
    } else if entries.last().1 != BlueprintTyp::Reaction {
        bonus_products(entries.drop_last()).push(entries.last().0)
    } else {
        bonus_products(entries.drop_last())
    }
}

/// The type ids of the entries of the planner's tree that are not
/// reactions, in the order of the entries.
pub fn product_type_ids(entries: &Vec<(u32, BlueprintTyp)>) -> (r: Vec<u32>)
    ensures
        r@ == bonus_products(entries@),
{
    let mut r: Vec<u32> = Vec::new();
    let mut i: usize = 0;
    while i < entries.len()
        invariant
            i <= entries.len(),
            r@ == bonus_products(entries@.take(i as int)),
        decreases entries.len() - i,
    {
        assert(entries@.take(i + 1).drop_last() =~= entries@.take(i as int));
        let (id, typ) = entries[i];
        match typ {
            BlueprintTyp::Reaction => {},
            _ => {
                r.push(id);
            },
        }
        i += 1;
    }
    assert(entries@.take(entries.len() as int) =~= entries@);
    r
}

} // verus!
