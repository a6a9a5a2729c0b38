//! Blueprints that characters share with their corporation.

use vstd::prelude::*;

verus! {

/// Who shares a corporation blueprint: the entry's id, the character and
/// the corporation.
#[derive(Clone, Copy, Debug, PartialEq, Eq, Structural)]
pub struct CorporationBlueprintOwner {
    pub id: u128,
    pub char_id: u32,
    pub corp_id: u32,
}

/// The entry was shared by the character `c` with the corporation `k`.
pub open spec fn shared_by(e: CorporationBlueprintOwner, c: u32, k: u32) -> bool {
    e.char_id == c && e.corp_id == k
}

/// Positions of the entries of `s` that the character `c` shared with the
/// corporation `k`, in order.
pub open spec fn shared_positions(s: Seq<CorporationBlueprintOwner>, c: u32, k: u32) -> Seq<usize>
    decreases s.len(),
{
    if s.len() == 0 {
        Seq::empty()
    } else if shared_by(s.last(), c, k) {
        shared_positions(s.drop_last(), c, k).push((s.len() - 1) as usize)
    } else {
        shared_positions(s.drop_last(), c, k)
    }
}

/// Ids of the entries of `s` that the character `c` shared with the
/// corporation `k`, in order.
pub open spec fn shared_ids(s: Seq<CorporationBlueprintOwner>, c: u32, k: u32) -> Seq<u128>
    decreases s.len(),
{
    if s.len() == 0 {
        Seq::empty()
    } else if shared_by(s.last(), c, k) {
        shared_ids(s.drop_last(), c, k).push(s.last().id)
    } else {
        shared_ids(s.drop_last(), c, k)
    }
}

/// Positions of the corporation blueprints that the character `char_id`
/// shared with the corporation `corp_id`: those that it is shown.
pub fn shared_blueprints(entries: &Vec<CorporationBlueprintOwner>, char_id: u32, corp_id: u32) -> (r: Vec<usize>)
    ensures
        r@ == shared_positions(entries@, char_id, corp_id),
{
    let mut r: Vec<usize> = Vec::new();
    let mut i: usize = 0;
    while i < entries.len()
        invariant
            i <= entries.len(),
            r@ == shared_positions(entries@.take(i as int), char_id, corp_id),
        decreases entries.len() - i,
    {
        assert(entries@.take(i + 1).drop_last() =~= entries@.take(i as int));
        if entries[i].char_id == char_id && entries[i].corp_id == corp_id {
            r.push(i);
        }
        i += 1;
    }
    assert(entries@.take(entries.len() as int) =~= entries@);
    r
}

/// Ids of the corporation blueprints that the character `char_id` shared
/// with the corporation `corp_id`: those that it deletes.
pub fn blueprint_ids_to_delete(entries: &Vec<CorporationBlueprintOwner>, char_id: u32, corp_id: u32) -> (r: Vec<u128>)
    ensures
        r@ == shared_ids(entries@, char_id, corp_id),
{
    let mut r: Vec<u128> = Vec::new();
    let mut i: usize = 0;
    while i < entries.len()
        invariant
            i <= entries.len(),
            r@ == shared_ids(entries@.take(i as int), char_id, corp_id),
        decreases entries.len() - i,
    {
        assert(entries@.take(i + 1).drop_last() =~= entries@.take(i as int));
        if entries[i].char_id == char_id && entries[i].corp_id == corp_id {
            r.push(entries[i].id);
        }
        i += 1;
    }
    assert(entries@.take(entries.len() as int) =~= entries@);
    r
}

} // verus!
