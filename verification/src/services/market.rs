//! Market data: the order requests, the half-hour slots of the market
//! history and the counts and volumes that the statistics are made of.

use vstd::prelude::*;
use crate::time::{hour_of, minute_of, second_of_day, MAX_TIMESTAMP};

verus! {

/// Sort direction of the prices.
#[derive(Clone, Copy, Debug, PartialEq, Eq, Structural)]
pub enum Sort {
    Asc,
    Desc,
}

/// Request for the best orders of an item.
#[derive(Clone, Debug)]
pub struct TopOrderReq {
    pub is_buy_order: bool,
    pub count: usize,
    pub sort: Sort,
}

/// An entry of a market snapshot: an order and the volume that remains of it.
#[derive(Clone, Copy, Debug, PartialEq, Eq, Structural)]
pub struct OrderVolume {
    pub order_id: u64,
    pub volume: u32,
}

/// The half-hour slot of the market history for `ts`, in milliseconds:
/// minute 50 of its hour from minute 50 on, minute 20 from minute 20 to 49,
/// and before minute 20 minute 50 of the previous hour, taken on the same
/// calendar day (so before 00:20 it is 23:50 of that day).
pub open spec fn previous_half_hour(ts: int) -> int {
    let day = ts - second_of_day(ts);
    let h = hour_of(ts);
    let m = minute_of(ts);
    let t = if m >= 50 {
        h * 3600 + 50 * 60
    } else if m < 20 {
        ((h + 23) % 24) * 3600 + 50 * 60
    } else {
        h * 3600 + 20 * 60
    };
    (day + t) * 1000
}

/// The slot of a moment is the latest time at minute 20 or 50 of an hour
/// at or before it, for every moment from 00:20 of its day on; before
/// that, the slot is 23:50 of the same day.
pub proof fn previous_30_minute_is_latest_slot(ts: int)
    requires
        ts >= 0,
        second_of_day(ts) >= 20 * 60,
    ensures
        previous_half_hour(ts) <= ts * 1000 < previous_half_hour(ts) + 1800 * 1000,
        previous_half_hour(ts) % 1000 == 0,
        (previous_half_hour(ts) / 1000) % 1800 == 1200,
{
    let s = second_of_day(ts);
    let h = hour_of(ts);
    let m = minute_of(ts);
    let day = ts - s;
    assert(0 <= s < 86400);
    assert(ts == (ts / 86400) * 86400 + s) by {
        vstd::arithmetic::div_mod::lemma_fundamental_div_mod(ts, 86400);
    }
    assert(s == h * 3600 + (s % 3600)) by {
        vstd::arithmetic::div_mod::lemma_fundamental_div_mod(s, 3600);
    }
    assert(s % 3600 == m * 60 + (s % 3600) % 60) by {
        vstd::arithmetic::div_mod::lemma_fundamental_div_mod(s % 3600, 60);
    }
    assert(0 <= (s % 3600) % 60 < 60);
    assert(0 <= m < 60);
    assert(0 <= h < 24);
    let t = if m >= 50 {
        h * 3600 + 50 * 60
    } else if m < 20 {
        ((h + 23) % 24) * 3600 + 50 * 60
    } else {
        h * 3600 + 20 * 60
    };
    if m < 20 {
        assert(h >= 1);
        assert((h + 23) % 24 == h - 1);
    }
    assert(t % 1800 == 1200);
    let q = ts / 86400;
    assert(day == q * 86400);
    assert((day + t) == (q * 48) * 1800 + t);
    assert(((q * 48) * 1800 + t) % 1800 == t % 1800) by {
        vstd::arithmetic::div_mod::lemma_mod_multiples_vanish(q * 48, t, 1800);
    }
    assert(previous_half_hour(ts) == (day + t) * 1000);
    assert(((day + t) * 1000) / 1000 == day + t) by {
        vstd::arithmetic::div_mod::lemma_div_multiples_vanish(day + t, 1000);
    }
    assert(((day + t) * 1000) % 1000 == 0) by {
        vstd::arithmetic::div_mod::lemma_mod_multiples_basic(day + t, 1000);
    }
}

/// The half-hour slot of the market history that `timestamp`, in seconds
/// since the UNIX epoch, belongs to, in milliseconds.
pub fn previous_30_minute(timestamp: u64) -> (r: u64)
    requires
        timestamp <= MAX_TIMESTAMP,
    ensures
        r == previous_half_hour(timestamp as int),
{
    let sod: u64 = timestamp % 86400;
    let day: u64 = timestamp - sod;
    let h: u64 = sod / 3600;
    let m: u64 = (sod % 3600) / 60;
    let t: u64 = if m >= 50 {
        h * 3600 + 50 * 60
    } else if m < 20 {
        ((h + 23) % 24) * 3600 + 50 * 60
    } else {
        h * 3600 + 20 * 60
    };
    (day + t) * 1000
}

/// Number of entries of `s` that are `side`.
pub open spec fn count_side(s: Seq<bool>, side: bool) -> int
    decreases s.len(),
{
    if s.len() == 0 {
        0
    } else {
        count_side(s.drop_last(), side) + if s.last() == side { 1int } else { 0int }
    }
}

/// Positions of the orders of the given side (buy or sell), in order.
pub open spec fn side_positions(s: Seq<bool>, side: bool) -> Seq<usize>
    decreases s.len(),
{
    if s.len() == 0 {
        Seq::empty()
    } else if s.last() == side {
        side_positions(s.drop_last(), side).push((s.len() - 1) as usize)
    } else {
        side_positions(s.drop_last(), side)
    }
}

/// Positions of the orders whose side (`true` for a buy order) is `side`,
/// in the order in which they are listed.
pub fn orders_of_side(is_buy_order: &Vec<bool>, side: bool) -> (r: Vec<usize>)
    ensures
        r@ == side_positions(is_buy_order@, side),
{
    let mut r: Vec<usize> = Vec::new();
    let mut i: usize = 0;
    while i < is_buy_order.len()
        invariant
            i <= is_buy_order.len(),
            r@ == side_positions(is_buy_order@.take(i as int), side),
        decreases is_buy_order.len() - i,
    {
        assert(is_buy_order@.take(i + 1).drop_last() =~= is_buy_order@.take(i as int));
        if is_buy_order[i] == side {
            r.push(i);
        }
        i += 1;
    }
    assert(is_buy_order@.take(is_buy_order.len() as int) =~= is_buy_order@);
    r
}

/// Number of buy orders and number of sell orders among the orders, each
/// as a `u32` (a count beyond its range wraps).
pub fn order_counts(is_buy_order: &Vec<bool>) -> (r: (u32, u32))
    ensures
        r.0 == count_side(is_buy_order@, true) as u32,
        r.1 == count_side(is_buy_order@, false) as u32,
{
    let mut buyers: usize = 0;
    let mut sellers: usize = 0;
    let mut i: usize = 0;
    while i < is_buy_order.len()
        invariant
            i <= is_buy_order.len(),
            buyers == count_side(is_buy_order@.take(i as int), true),
            sellers == count_side(is_buy_order@.take(i as int), false),
            buyers + sellers == i,
        decreases is_buy_order.len() - i,
    {
        assert(is_buy_order@.take(i + 1).drop_last() =~= is_buy_order@.take(i as int));
        if is_buy_order[i] {
            buyers += 1;
        } else {
            sellers += 1;
        }
        i += 1;
    }
    assert(is_buy_order@.take(is_buy_order.len() as int) =~= is_buy_order@);
    (buyers as u32, sellers as u32)
}

/// The first `count` entries, or all of them where there are fewer.
pub fn top_subset<T: Clone>(items: Vec<T>, count: usize) -> (r: Vec<T>)
    ensures
        r@ == (if items.len() >= count { items@.take(count as int) } else { items@ }),
{
    if items.len() >= count {
        let mut items = items;
        items.truncate(count);
        items
    } else {
        items
    }
}

/// Sum of the volumes of the entries whose order is one of `ids`.
pub open spec fn volume_of(entries: Seq<OrderVolume>, ids: Seq<u64>) -> int
    decreases entries.len(),
{
    if entries.len() == 0 {
        0
    } else {
        volume_of(entries.drop_last(), ids) + if ids.contains(entries.last().order_id) {
            entries.last().volume as int
        } else {
            0int
        }
    }
}

proof fn lemma_volume_bounds(entries: Seq<OrderVolume>, ids: Seq<u64>, i: int)
    requires
        0 <= i <= entries.len(),
    ensures
        0 <= volume_of(entries.take(i), ids) <= volume_of(entries, ids),
    decreases entries.len(),
{
    if entries.len() > 0 {
        if i == entries.len() {
            assert(entries.take(i) =~= entries);
            lemma_volume_bounds(entries.drop_last(), ids, i - 1);
        } else {
            assert(entries.drop_last().take(i) =~= entries.take(i));
            lemma_volume_bounds(entries.drop_last(), ids, i);
        }
    }
}

/// Whether `ids` holds `id`.
fn holds_id(ids: &Vec<u64>, id: u64) -> (r: bool)
    ensures
        r == ids@.contains(id),
{
    let mut i: usize = 0;
    while i < ids.len()
        invariant
            i <= ids.len(),
            forall|j: int| 0 <= j < i ==> ids@[j] != id,
        decreases ids.len() - i,
    {
        if ids[i] == id {
            return true;
        }
        i += 1;
    }
    false
}

/// Total volume that remains of the orders `ids` in a market snapshot:
/// the volumes of the entries of those orders, summed.
pub fn total_volume(entries: &Vec<OrderVolume>, ids: &Vec<u64>) -> (r: u64)
    requires
        volume_of(entries@, ids@) <= u64::MAX,
    ensures
        r == volume_of(entries@, ids@),
{
    let mut sum: u64 = 0;
    let mut i: usize = 0;
    while i < entries.len()
        invariant
            i <= entries.len(),
            volume_of(entries@, ids@) <= u64::MAX,
            sum == volume_of(entries@.take(i as int), ids@),
        decreases entries.len() - i,
    {
        assert(entries@.take(i + 1).drop_last() =~= entries@.take(i as int));
        proof {
            lemma_volume_bounds(entries@, ids@, i + 1);
        }
        if holds_id(ids, entries[i].order_id) {
            sum = sum + entries[i].volume as u64;
        }
        i += 1;
    }
    assert(entries@.take(entries.len() as int) =~= entries@);
    sum
}

} // verus!
