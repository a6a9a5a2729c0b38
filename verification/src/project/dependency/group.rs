//! Groups of dependencies: at most one entry per product, ordered by the
//! product's type id, where adding a product that is already there adds
//! to its quantity.

use vstd::prelude::*;
use crate::project::dependency::{
    build_order_seq, lemma_build_order_seq_same, lemma_same_trees_trans, quantity_fits, quantity_set,
    same_tree, same_trees, Dependency,
};

verus! {

/// The entries are ordered by strictly increasing type id, so that each
/// product has at most one entry.
pub open spec fn sorted_ids(s: Seq<Dependency>) -> bool {
    forall|i: int, j: int| 0 <= i < j < s.len() ==> s[i].ptype_id.0 < s[j].ptype_id.0
}

/// `s` holds an entry for the product `id`.
pub open spec fn has_entry(s: Seq<Dependency>, id: u32) -> bool {
    exists|i: int| 0 <= i < s.len() && s[i].ptype_id.0 == id
}

/// The entry of `s` for the product `id`.
pub open spec fn entry_of(s: Seq<Dependency>, id: u32) -> Dependency
    recommends
        has_entry(s, id),
{
    s[choose|i: int| 0 <= i < s.len() && s[i].ptype_id.0 == id]
}

/// In an ordered group, the entry at position `i` is the entry for its
/// product.
pub proof fn lemma_entry_at(s: Seq<Dependency>, i: int)
    requires
        sorted_ids(s),
        0 <= i < s.len(),
    ensures
        has_entry(s, s[i].ptype_id.0),
        entry_of(s, s[i].ptype_id.0) == s[i],
{
    assert(has_entry(s, s[i].ptype_id.0));
    let j = choose|j: int| 0 <= j < s.len() && s[j].ptype_id.0 == s[i].ptype_id.0;
    if j < i {
        assert(s[j].ptype_id.0 < s[i].ptype_id.0);
    } else if i < j {
        assert(s[i].ptype_id.0 < s[j].ptype_id.0);
    }
}

/// `new` is `old` after `dep` was added: a new product is taken as it is,
/// and a product that was there gets the sum of both quantities; every
/// other entry is kept.
pub open spec fn added(old: Seq<Dependency>, new: Seq<Dependency>, dep: Dependency) -> bool {
    let id = dep.ptype_id.0;
    &&& forall|k: u32| #[trigger] has_entry(new, k) <==> (has_entry(old, k) || k == id)
    &&& forall|k: u32| k != id && has_entry(old, k) ==> #[trigger] entry_of(new, k) == entry_of(old, k)
    &&& if has_entry(old, id) {
        quantity_set(entry_of(old, id), entry_of(new, id), entry_of(old, id).products + dep.products)
    } else {
        entry_of(new, id) == dep
    }
}

/// Adding `dep` to `s` stays within the range of `i64`.
pub open spec fn add_fits(s: Seq<Dependency>, dep: Dependency) -> bool {
    has_entry(s, dep.ptype_id.0) ==> quantity_fits(
        entry_of(s, dep.ptype_id.0),
        entry_of(s, dep.ptype_id.0).products + dep.products,
    )
}

/// `new` is `old` after every entry of `other` was added to it.
pub open spec fn merged(old: Seq<Dependency>, new: Seq<Dependency>, other: Seq<Dependency>) -> bool {
    &&& forall|k: u32| #[trigger] has_entry(new, k) <==> (has_entry(old, k) || has_entry(other, k))
    &&& forall|k: u32| !has_entry(other, k) && has_entry(old, k) ==> #[trigger] entry_of(new, k) == entry_of(old, k)
    &&& forall|k: u32| #[trigger] has_entry(other, k) ==> if has_entry(old, k) {
        quantity_set(entry_of(old, k), entry_of(new, k), entry_of(old, k).products + entry_of(other, k).products)
    } else {
        entry_of(new, k) == entry_of(other, k)
    }
}

/// Merging `other` into `s` stays within the range of `i64`.
pub open spec fn merge_fits(s: Seq<Dependency>, other: Seq<Dependency>) -> bool {
    forall|k: u32| #[trigger] has_entry(other, k) && has_entry(s, k) ==> quantity_fits(
        entry_of(s, k),
        entry_of(s, k).products + entry_of(other, k).products,
    )
}

/// No dependency after position `i` of `d` is for the same product.
pub open spec fn is_last(d: Seq<Dependency>, i: int) -> bool {
    forall|j: int| i < j < d.len() ==> d[j].ptype_id != d[i].ptype_id
}

/// Some dependency of `d` from position `from` on is for the product `id`.
pub open spec fn occurs_from(d: Seq<Dependency>, from: int, id: u32) -> bool {
    exists|i: int| from <= i < d.len() && d[i].ptype_id.0 == id
}

/// List of components that are required in a project.
#[derive(Debug)]
pub struct DependencyGroup(pub Vec<Dependency>);

impl DependencyGroup {
    /// The entries are ordered by type id, one per product.
    pub open spec fn wf(&self) -> bool {
        sorted_ids(self.0@)
    }

    /// The entries of the group, ordered by type id.
    pub open spec fn entries(&self) -> Seq<Dependency> {
        self.0@
    }

    /// An empty group.
    pub fn new() -> (r: Self)
        ensures
            r.wf(),
            r.entries().len() == 0,
    {
        DependencyGroup(Vec::new())
    }

    /// Consumes itself and returns the entries, ordered by type id.
    pub fn into_inner(self) -> (r: Vec<Dependency>)
        ensures
            r@ == self.entries(),
    {
        self.0
    }

    /// Position at which the product `id` is or belongs.
    fn position(&self, id: u32) -> (r: usize)
        requires
            self.wf(),
        ensures
            r <= self.0.len(),
            forall|i: int| 0 <= i < r ==> self.0@[i].ptype_id.0 < id,
            r < self.0.len() ==> self.0@[r as int].ptype_id.0 >= id,
    {
        let mut i: usize = 0;
        while i < self.0.len() && self.0[i].ptype_id.0 < id
            invariant
                i <= self.0.len(),
                self.wf(),
                forall|j: int| 0 <= j < i ==> self.0@[j].ptype_id.0 < id,
            decreases self.0.len() - i,
        {
            i += 1;
        }
        i
    }

    /// Constructs a group from a list of dependencies. Of several
    /// dependencies for one product, the last one is kept.
    pub fn from_dependencies(dependencies: Vec<Dependency>) -> (r: Self)
        ensures
            r.wf(),
            forall|k: u32| #[trigger] has_entry(r.entries(), k) <==> has_entry(dependencies@, k),
            forall|i: int|
                0 <= i < dependencies.len() && is_last(dependencies@, i)
                    ==> entry_of(r.entries(), #[trigger] dependencies@[i].ptype_id.0) == dependencies@[i],
    {
        let ghost d = dependencies@;
        let mut group = DependencyGroup::new();
        let mut rest = dependencies;
        proof {
            assert(d.take(d.len() as int) =~= d);
        }
        while rest.len() > 0
            invariant
                group.wf(),
                rest.len() <= d.len(),
                rest@ == d.take(rest.len() as int),
                forall|k: u32| #[trigger] has_entry(group.0@, k) <==> occurs_from(d, rest.len() as int, k),
                forall|i: int|
                    rest.len() <= i < d.len() && is_last(d, i)
                        ==> entry_of(group.0@, #[trigger] d[i].ptype_id.0) == d[i],
            decreases rest.len(),
        {
            let ghost k = rest.len() as int;
            let ghost g0 = group.0@;
            let e = rest.pop().unwrap();
            proof {
                assert(e == d[k - 1]);
                assert(rest@ =~= d.take(k - 1));
            }
            let id = e.ptype_id.0;
            let pos = group.position(id);
            if pos < group.0.len() && group.0[pos].ptype_id.0 == id {
                proof {
                    lemma_entry_at(g0, pos as int);
                    assert(occurs_from(d, k, id));
                    assert forall|i: int|
                        k - 1 <= i < d.len() && is_last(d, i)
                            implies entry_of(group.0@, #[trigger] d[i].ptype_id.0) == d[i] by {
                        if i == k - 1 {
                            let w = choose|w: int| k <= w < d.len() && d[w].ptype_id.0 == id;
                            assert(d[w].ptype_id == d[i].ptype_id);
                        }
                    }
                    assert forall|x: u32| #[trigger] has_entry(group.0@, x) <==> occurs_from(d, k - 1, x) by {
                        if occurs_from(d, k - 1, x) {
                            let i = choose|i: int| k - 1 <= i < d.len() && d[i].ptype_id.0 == x;
                            if i >= k {
                                assert(occurs_from(d, k, x));
                            }
                        }
                        if occurs_from(d, k, x) {
                            let i = choose|i: int| k <= i < d.len() && d[i].ptype_id.0 == x;
                            assert(occurs_from(d, k - 1, x));
                        }
                    }
                }
            } else {
                proof {
                    assert(!has_entry(g0, id)) by {
                        if has_entry(g0, id) {
                            let i = choose|i: int| 0 <= i < g0.len() && g0[i].ptype_id.0 == id;
                            if i > pos {
                                assert(g0[pos as int].ptype_id.0 < g0[i].ptype_id.0);
                            }
                        }
                    }
                }
                group.add(e);
                proof {
                    let g1 = group.0@;
                    assert forall|x: u32| #[trigger] has_entry(g1, x) <==> occurs_from(d, k - 1, x) by {
                        if x == id {
                            assert(d[k - 1].ptype_id.0 == x);
                        }
                        if occurs_from(d, k - 1, x) {
                            let i = choose|i: int| k - 1 <= i < d.len() && d[i].ptype_id.0 == x;
                            if i >= k {
                                assert(occurs_from(d, k, x));
                                assert(has_entry(g0, x));
                            }
                        }
                        if occurs_from(d, k, x) {
                            let i = choose|i: int| k <= i < d.len() && d[i].ptype_id.0 == x;
                            assert(occurs_from(d, k - 1, x));
                        }
                    }
                    assert forall|i: int|
                        k - 1 <= i < d.len() && is_last(d, i)
                            implies entry_of(g1, #[trigger] d[i].ptype_id.0) == d[i] by {
                        if i >= k && d[i].ptype_id.0 == id {
                            assert(occurs_from(d, k, id));
                            assert(has_entry(g0, id));
                        }
                    }
                }
            }
        }
        proof {
            assert forall|x: u32| #[trigger] has_entry(group.0@, x) <==> has_entry(d, x) by {
                if has_entry(d, x) {
                    let i = choose|i: int| 0 <= i < d.len() && d[i].ptype_id.0 == x;
                    assert(occurs_from(d, 0, x));
                }
            }
        }
        group
    }

    /// Merges another group into this one: each of its entries is added.
    pub fn merge(&mut self, dep: DependencyGroup)
        requires
            old(self).wf(),
            dep.wf(),
            merge_fits(old(self).entries(), dep.entries()),
        ensures
            final(self).wf(),
            merged(old(self).entries(), final(self).entries(), dep.entries()),
    {
        let ghost s0 = self.0@;
        let ghost o = dep.0@;
        let mut rest = dep.0;
        proof {
            assert(o.skip(o.len() as int) =~= Seq::<Dependency>::empty());
        }
        while rest.len() > 0
            invariant
                self.wf(),
                sorted_ids(o),
                rest.len() <= o.len(),
                rest@ == o.take(rest.len() as int),
                merge_fits(s0, o),
                merged(s0, self.0@, o.skip(rest.len() as int)),
            decreases rest.len(),
        {
            let ghost k = rest.len() as int;
            let ghost cur = self.0@;
            let ghost done = o.skip(k);
            let e = rest.pop().unwrap();
            let ghost id = e.ptype_id.0;
            proof {
                assert(e == o[k - 1]);
                assert(rest@ =~= o.take(k - 1));
                lemma_entry_at(o, k - 1);
                assert(!has_entry(done, id)) by {
                    if has_entry(done, id) {
                        let i = choose|i: int| 0 <= i < done.len() && done[i].ptype_id.0 == id;
                        assert(o[k + i].ptype_id.0 == id);
                        assert(o[k - 1].ptype_id.0 < o[k + i].ptype_id.0);
                    }
                }
                if has_entry(cur, id) {
                    assert(has_entry(s0, id));
                    assert(entry_of(cur, id) == entry_of(s0, id));
                    assert(has_entry(o, id));
                }
            }
            self.add(e);
            proof {
                let new = self.0@;
                let done2 = o.skip(k - 1);
                assert(done2 =~= seq![e] + done);
                assert forall|i: int| 0 <= i < done.len() implies #[trigger] done[i] == o[k + i] by {}
                assert forall|x: u32| #[trigger] has_entry(done2, x) <==> (has_entry(done, x) || x == id) by {
                    if has_entry(done2, x) {
                        let i = choose|i: int| 0 <= i < done2.len() && done2[i].ptype_id.0 == x;
                        if i > 0 {
                            assert(done[i - 1].ptype_id.0 == x);
                        }
                    }
                    if has_entry(done, x) {
                        let i = choose|i: int| 0 <= i < done.len() && done[i].ptype_id.0 == x;
                        assert(done2[i + 1].ptype_id.0 == x);
                    }
                    if x == id {
                        assert(done2[0].ptype_id.0 == x);
                    }
                }
                assert(sorted_ids(done2));
                assert(sorted_ids(done));
                assert forall|x: u32| #[trigger] has_entry(done2, x) implies entry_of(done2, x) == entry_of(o, x) by {
                    let i = choose|i: int| 0 <= i < done2.len() && done2[i].ptype_id.0 == x;
                    lemma_entry_at(done2, i);
                    lemma_entry_at(o, k - 1 + i);
                }
                assert forall|x: u32| #[trigger] has_entry(done, x) implies entry_of(done, x) == entry_of(o, x) by {
                    let i = choose|i: int| 0 <= i < done.len() && done[i].ptype_id.0 == x;
                    lemma_entry_at(done, i);
                    lemma_entry_at(o, k + i);
                }
                assert forall|x: u32| #[trigger] has_entry(new, x) <==> (has_entry(s0, x) || has_entry(done2, x)) by {}
                assert forall|x: u32| !has_entry(done2, x) && has_entry(s0, x) implies #[trigger] entry_of(new, x) == entry_of(s0, x) by {}
                assert forall|x: u32| #[trigger] has_entry(done2, x) implies (if has_entry(s0, x) {
                    quantity_set(entry_of(s0, x), entry_of(new, x), entry_of(s0, x).products + entry_of(done2, x).products)
                } else {
                    entry_of(new, x) == entry_of(done2, x)
                }) by {
                    if x == id {
                        assert(entry_of(done2, x) == e);
                    } else {
                        assert(has_entry(done, x));
                        assert(entry_of(done2, x) == entry_of(done, x));
                    }
                }
            }
        }
        proof {
            assert(o.skip(0) =~= o);
        }
    }

    /// Adds a new dependency to the group. If the product is already in the
    /// group, the number of products is added to the existing entry.
    #[verifier::spinoff_prover]
    #[verifier::rlimit(40)]
    pub fn add(&mut self, dep: Dependency)
        requires
            old(self).wf(),
            add_fits(old(self).entries(), dep),
        ensures
            final(self).wf(),
            added(old(self).entries(), final(self).entries(), dep),
    {
        let id = dep.ptype_id.0;
        let pos = self.position(id);
        let ghost s0 = self.0@;
        if pos < self.0.len() && self.0[pos].ptype_id.0 == id {
            proof {
                lemma_entry_at(s0, pos as int);
            }
            let amount = self.0[pos].products + dep.products;
            self.0[pos].set_product_quantity(amount);
            let ghost s1 = self.0@;
            proof {
                assert forall|i: int, j: int| 0 <= i < j < s1.len() implies s1[i].ptype_id.0 < s1[j].ptype_id.0 by {
                    assert(s0[i].ptype_id.0 < s0[j].ptype_id.0);
                }
                lemma_entry_at(s1, pos as int);
                assert forall|k: u32| #[trigger] has_entry(s1, k) <==> (has_entry(s0, k) || k == id) by {
                    if has_entry(s1, k) {
                        let i = choose|i: int| 0 <= i < s1.len() && s1[i].ptype_id.0 == k;
                        assert(s0[i].ptype_id.0 == k);
                    }
                    if has_entry(s0, k) {
                        let i = choose|i: int| 0 <= i < s0.len() && s0[i].ptype_id.0 == k;
                        assert(s1[i].ptype_id.0 == k);
                    }
                }
                assert forall|k: u32| k != id && has_entry(s0, k) implies #[trigger] entry_of(s1, k) == entry_of(s0, k) by {
                    let i = choose|i: int| 0 <= i < s0.len() && s0[i].ptype_id.0 == k;
                    lemma_entry_at(s0, i);
                    lemma_entry_at(s1, i);
                }
            }
        } else {
            self.0.insert(pos, dep);
            let ghost s1 = self.0@;
            proof {
                assert(s1 == s0.insert(pos as int, dep));
                assert forall|i: int, j: int| 0 <= i < j < s1.len() implies s1[i].ptype_id.0 < s1[j].ptype_id.0 by {
                    if j < pos {
                        assert(s0[i].ptype_id.0 < s0[j].ptype_id.0);
                    } else if j == pos {
                    } else if i < pos {
                        assert(s0[j - 1].ptype_id.0 >= id);
                        if j - 1 > pos {
                            assert(s0[pos as int].ptype_id.0 < s0[j - 1].ptype_id.0);
                        }
                    } else if i == pos {
                        assert(s0[pos as int].ptype_id.0 > id);
                        if j - 1 > pos {
                            assert(s0[pos as int].ptype_id.0 < s0[j - 1].ptype_id.0);
                        }
                    } else {
                        assert(s0[i - 1].ptype_id.0 < s0[j - 1].ptype_id.0);
                    }
                }
                assert(!has_entry(s0, id)) by {
                    if has_entry(s0, id) {
                        let i = choose|i: int| 0 <= i < s0.len() && s0[i].ptype_id.0 == id;
                        if i > pos {
                            assert(s0[pos as int].ptype_id.0 < s0[i].ptype_id.0);
                        }
                    }
                }
                lemma_entry_at(s1, pos as int);
                assert forall|k: u32| #[trigger] has_entry(s1, k) <==> (has_entry(s0, k) || k == id) by {
                    if has_entry(s1, k) {
                        let i = choose|i: int| 0 <= i < s1.len() && s1[i].ptype_id.0 == k;
                        if i < pos {
                            assert(s0[i].ptype_id.0 == k);
                        } else if i > pos {
                            assert(s0[i - 1].ptype_id.0 == k);
                        }
                    }
                    if has_entry(s0, k) {
                        let i = choose|i: int| 0 <= i < s0.len() && s0[i].ptype_id.0 == k;
                        if i < pos {
                            assert(s1[i].ptype_id.0 == k);
                        } else {
                            assert(s1[i + 1].ptype_id.0 == k);
                        }
                    }
                    if k == id {
                        assert(s1[pos as int].ptype_id.0 == k);
                    }
                }
                assert forall|k: u32| k != id && has_entry(s0, k) implies #[trigger] entry_of(s1, k) == entry_of(s0, k) by {
                    let i = choose|i: int| 0 <= i < s0.len() && s0[i].ptype_id.0 == k;
                    lemma_entry_at(s0, i);
                    if i < pos {
                        lemma_entry_at(s1, i);
                    } else {
                        lemma_entry_at(s1, i + 1);
                    }
                }
            }
        }
    }

    /// The build order of the group: the entries in their order, each that
    /// is built from something after the build order of its own
    /// components, every product once; the group stays as it is.
    pub fn build_order(&mut self) -> (r: Vec<Dependency>)
        ensures
            *final(self) == *old(self),
            same_trees(r@, build_order_seq(old(self).entries(), Set::empty()).0),
    {
        let mut deps: Vec<Dependency> = Vec::new();
        let mut i: usize = 0;
        while i < self.0.len()
            invariant
                i <= self.0.len(),
                deps.len() == i,
                forall|j: int| 0 <= j < i ==> same_tree(#[trigger] deps@[j], self.0@[j]),
            decreases self.0.len() - i,
        {
            deps.push(self.0[i].clone());
            i += 1;
        }
        let ghost cloned = deps@;
        let mut root = Dependency::with_dependencies(deps);
        root.sort();
        proof {
            lemma_build_order_seq_same(cloned, self.0@, Set::empty());
            lemma_same_trees_trans(
                root.components@,
                build_order_seq(cloned, Set::empty()).0,
                build_order_seq(self.0@, Set::empty()).0,
            );
        }
        root.components
    }
}

} // verus!
