//! Names of ids: items first, then the names of everything else.

use vstd::prelude::*;

verus! {

/// An id and the name that it stands for.
#[derive(Clone, Debug)]
pub struct Resolve {
    pub id: i32,
    pub name: String,
}

/// The name of an id: the one among the items where there is one, else the
/// one among the other names, else none.
pub fn first_resolved(in_items: Option<Resolve>, in_names: Option<Resolve>) -> (r: Option<Resolve>)
    ensures
        in_items is Some ==> r == in_items,
        in_items is None ==> r == in_names,
{
    match in_items {
        Some(x) => Some(x),
        None => in_names,
    }
}

/// The names among `s`, in order.
pub open spec fn found_names(s: Seq<Option<Resolve>>) -> Seq<Resolve>
    decreases s.len(),
{
    if s.len() == 0 {
        Seq::empty()
    } else {
        match s[0] {
            Some(x) => seq![x] + found_names(s.drop_first()),
            None => found_names(s.drop_first()),
        }
    }
}

/// The names that were found, in the order of the ids; ids without a name
/// are left out.
pub fn resolved_only(results: Vec<Option<Resolve>>) -> (r: Vec<Resolve>)
    ensures
        r@ == found_names(results@),
{
    let mut r: Vec<Resolve> = Vec::new();
    let mut results = results;
    let ghost all = results@;
    while results.len() > 0
        invariant
            r@ + found_names(results@) == found_names(all),
        decreases results.len(),
    {
        let ghost before = results@;
        let x = results.remove(0);
        assert(results@ == before.drop_first());
        match x {
            Some(v) => {
                assert(r@.push(v) + found_names(results@) =~= r@ + found_names(before));
                r.push(v);
            },
            None => {},
        }
    }
    assert(r@ + found_names(results@) =~= r@);
    r
}

} // verus!
