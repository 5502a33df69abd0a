//! Hourly electricity prices.
//!
//! A price is a fixed-point integer: millionths of a euro per kilowatt-hour
//! (0.15 EUR/kWh is stored as 150_000). A series is an ordered list of
//! hour-aligned price points for consecutive queries over one calendar date.

use vstd::prelude::*;
use vstd::seq_lib::group_to_multiset_ensures;
use vstd::multiset::Multiset;
use crate::clock::valid_ts;

verus! {

/// Bound on the magnitude of a single price, so that sums of a bounded
/// number of prices stay well inside `i64`.
pub const MAX_ABS_PRICE: i64 = 0x7FFF_FFFF;

#[derive(Clone, Copy, PartialEq, Eq, Structural, Debug)]
pub struct PricePoint {
    /// Start of the hour this price applies to, in seconds since the epoch.
    pub ts: i64,
    /// Price in millionths of a euro per kilowatt-hour.
    pub price: i64,
}

pub open spec fn valid_point(p: PricePoint) -> bool {
    &&& valid_ts(p.ts as int)
    &&& p.ts % 3600 == 0
    &&& -0x7FFF_FFFF <= p.price <= 0x7FFF_FFFF
}

/// A well-formed series: valid points with strictly increasing timestamps,
/// so each hour appears at most once.
pub open spec fn valid_series(s: Seq<PricePoint>) -> bool {
    &&& forall|i: int| 0 <= i < s.len() ==> valid_point(#[trigger] s[i])
    &&& forall|i: int, j: int| 0 <= i < j < s.len() ==> s[i].ts < s[j].ts
}

/// Whether the series has a point for the hour starting at `ts`.
pub open spec fn has_hour(s: Seq<PricePoint>, ts: int) -> bool {
    exists|i: int| 0 <= i < s.len() && s[i].ts == ts
}

/// No two points share an hour.
pub open spec fn distinct_hours(s: Seq<PricePoint>) -> bool {
    forall|i: int, j: int| 0 <= i < j < s.len() ==> s[i].ts != s[j].ts
}

/// Price order with ties broken by time: the order the selection sorts by.
pub open spec fn lex_at_most(a: PricePoint, b: PricePoint) -> bool {
    a.price < b.price || (a.price == b.price && a.ts <= b.ts)
}

pub open spec fn sorted_by_price(s: Seq<PricePoint>) -> bool {
    forall|i: int, j: int| 0 <= i < j < s.len() ==> lex_at_most(#[trigger] s[i], #[trigger] s[j])
}

proof fn lemma_series_no_duplicates(s: Seq<PricePoint>)
    requires
        distinct_hours(s),
    ensures
        s.no_duplicates(),
{
}

/// The price for the hour starting at `ts`, if the series has that hour.
pub fn price_at(prices: &Vec<PricePoint>, ts: i64) -> (r: Option<i64>)
    ensures
        match r {
            Some(p) => exists|i: int|
                0 <= i < prices@.len() && prices@[i].ts == ts && prices@[i].price == p,
            None => !has_hour(prices@, ts as int),
        },
{
    let mut i: usize = 0;
    while i < prices.len()
        invariant
            0 <= i <= prices@.len(),
            forall|j: int| 0 <= j < i ==> prices@[j].ts != ts,
        decreases prices@.len() - i,
    {
        if prices[i].ts == ts {
            return Some(prices[i].price);
        }
        i += 1;
    }
    None
}

/// Reorders `v` ascending by price, ties broken by time. The result holds
/// exactly the points of `v` (as a multiset).
pub fn sort_by_price(v: &Vec<PricePoint>) -> (r: Vec<PricePoint>)
    ensures
        r@.len() == v@.len(),
        r@.to_multiset() == v@.to_multiset(),
        sorted_by_price(r@),
{
    broadcast use group_to_multiset_ensures;

    let mut rem: Vec<PricePoint> = Vec::new();
    let mut i: usize = 0;
    while i < v.len()
        invariant
            0 <= i <= v@.len(),
            rem@ =~= v@.subrange(0, i as int),
        decreases v@.len() - i,
    {
        rem.push(v[i]);
        i += 1;
    }
    assert(rem@ =~= v@);

    let mut out: Vec<PricePoint> = Vec::new();
    while rem.len() > 0
        invariant
            out@.to_multiset().add(rem@.to_multiset()) =~= v@.to_multiset(),
            out@.len() + rem@.len() == v@.len(),
            sorted_by_price(out@),
            forall|a: int, b: int|
                0 <= a < out@.len() && 0 <= b < rem@.len() ==> lex_at_most(
                    #[trigger] out@[a],
                    #[trigger] rem@[b],
                ),
        decreases rem@.len(),
    {
        let mut m: usize = 0;
        let mut k: usize = 1;
        while k < rem.len()
            invariant
                0 <= m < k <= rem@.len(),
                forall|j: int| 0 <= j < k ==> lex_at_most(rem@[m as int], #[trigger] rem@[j]),
            decreases rem@.len() - k,
        {
            if rem[k].price < rem[m].price || (rem[k].price == rem[m].price && rem[k].ts
                < rem[m].ts) {
                m = k;
            }
            k += 1;
        }
        let ghost old_rem = rem@;
        let x = rem.remove(m);
        let ghost old_out = out@;
        out.push(x);
        proof {
            broadcast use vstd::multiset::group_multiset_axioms;

            vstd::seq_lib::to_multiset_remove::<PricePoint>(old_rem, m as int);
            vstd::seq_lib::to_multiset_build::<PricePoint>(old_out, x);
            vstd::seq_lib::to_multiset_contains::<PricePoint>(old_rem, x);
            assert(rem@ == old_rem.remove(m as int));
            assert(out@ == old_out.push(x));
            assert(old_rem.contains(x));
            assert(old_rem.to_multiset().count(x) > 0);
            assert(out@.to_multiset().add(rem@.to_multiset()) =~= v@.to_multiset());
            assert forall|b: int| 0 <= b < rem@.len() implies lex_at_most(x, #[trigger] rem@[b]) by {
                if b < m {
                    assert(rem@[b] == old_rem[b]);
                } else {
                    assert(rem@[b] == old_rem[b + 1]);
                }
            }
        }
    }
    proof {
        assert(rem@.to_multiset() =~= Multiset::<PricePoint>::empty());
        assert(out@.to_multiset() =~= v@.to_multiset());
    }
    out
}

proof fn lemma_multiset_same_contains(a: Seq<PricePoint>, b: Seq<PricePoint>, x: PricePoint)
    requires
        a.to_multiset() == b.to_multiset(),
        a.contains(x),
    ensures
        b.contains(x),
{
    broadcast use group_to_multiset_ensures;

    assert(a.to_multiset().count(x) > 0);
}

/// The hours of `r` are distinct whenever `r` reorders a series whose hours
/// are distinct.
proof fn lemma_permutation_distinct_hours(s: Seq<PricePoint>, r: Seq<PricePoint>)
    requires
        r.to_multiset() == s.to_multiset(),
        distinct_hours(s),
        forall|i: int, j: int| 0 <= i < j < s.len() ==> s[i].ts < s[j].ts,
    ensures
        distinct_hours(r),
{
    broadcast use group_to_multiset_ensures;

    lemma_series_no_duplicates(s);
    s.lemma_multiset_has_no_duplicates();
    r.lemma_multiset_has_no_duplicates_conv();
    assert forall|i: int, j: int| 0 <= i < j < r.len() implies r[i].ts != r[j].ts by {
        if r[i].ts == r[j].ts {
            assert(r.contains(r[i]) && r.contains(r[j]));
            lemma_multiset_same_contains(r, s, r[i]);
            lemma_multiset_same_contains(r, s, r[j]);
            let a = choose|a: int| 0 <= a < s.len() && s[a] == r[i];
            let b = choose|b: int| 0 <= b < s.len() && s[b] == r[j];
            assert(a == b);
            assert(r[i] == r[j]);
            assert(r.no_duplicates());
        }
    }
}

/// The `n` cheapest hours of a series (all of it if it has fewer than `n`
/// points). Every selected hour's price is at or below the price of every
/// hour of the series that was not selected; an equal price is selected only
/// for the earlier hour, so the selection is a function of the series.
pub fn cheapest_hours(prices: &Vec<PricePoint>, n: usize) -> (r: Vec<PricePoint>)
    requires
        valid_series(prices@),
    ensures
        r@.len() == if n <= prices@.len() { n as int } else { prices@.len() as int },
        forall|i: int| 0 <= i < r@.len() ==> prices@.contains(#[trigger] r@[i]),
        distinct_hours(r@),
        forall|i: int, j: int|
            0 <= i < r@.len() && 0 <= j < prices@.len() && !has_hour(r@, prices@[j].ts as int)
                ==> lex_at_most(#[trigger] r@[i], #[trigger] prices@[j]) && r@[i]
                != prices@[j],
{
    broadcast use group_to_multiset_ensures;

    let sorted = sort_by_price(prices);
    let m: usize = if n <= sorted.len() { n } else { sorted.len() };
    let mut r: Vec<PricePoint> = Vec::new();
    let mut i: usize = 0;
    while i < m
        invariant
            0 <= i <= m <= sorted@.len(),
            r@ =~= sorted@.subrange(0, i as int),
        decreases m - i,
    {
        r.push(sorted[i]);
        i += 1;
    }
    proof {
        assert(r@ =~= sorted@.subrange(0, m as int));
        lemma_permutation_distinct_hours(prices@, sorted@, );
        assert forall|i2: int| 0 <= i2 < r@.len() implies prices@.contains(#[trigger] r@[i2]) by {
            assert(r@[i2] == sorted@[i2]);
            assert(sorted@.contains(sorted@[i2]));
            lemma_multiset_same_contains(sorted@, prices@, sorted@[i2]);
        }
        assert forall|i2: int, j: int|
            0 <= i2 < r@.len() && 0 <= j < prices@.len() && !has_hour(r@, prices@[j].ts as int)
                implies lex_at_most(#[trigger] r@[i2], #[trigger] prices@[j]) && r@[i2]
            != prices@[j] by {
            assert(prices@.contains(prices@[j]));
            lemma_multiset_same_contains(prices@, sorted@, prices@[j]);
            let k = choose|k: int| 0 <= k < sorted@.len() && sorted@[k] == prices@[j];
            if k < m {
                assert(r@[k] == sorted@[k]);
                assert(has_hour(r@, prices@[j].ts as int));
            } else {
                if i2 < k {
                    assert(lex_at_most(sorted@[i2], sorted@[k]));
                } else {
                    assert(i2 == k);
                }
            }
        }
    }
    r
}


/// Whether a full day of hourly prices is present: at least 24 points.
pub fn has_full_day(prices: &Vec<PricePoint>) -> (r: bool)
    ensures
        r == (prices@.len() >= 24),
{
    prices.len() >= 24
}

/// The hours to run a device of the given duration: the cheapest hour for
/// each started hour of the duration (a 90-minute duration books 2 hours).
/// Returns the timestamps of the chosen hours.
pub fn find_cheapest_hours(prices: &Vec<PricePoint>, duration_minutes: i32) -> (r: Vec<i64>)
    requires
        valid_series(prices@),
    ensures
        exists|sel: Seq<PricePoint>|
            {
                let n = if duration_minutes <= 0 {
                    0
                } else {
                    (duration_minutes + 59) / 60
                };
                &&& (#[trigger] sel.len()) == if n <= prices@.len() {
                    n as int
                } else {
                    prices@.len() as int
                }
                &&& (forall|i: int| 0 <= i < sel.len() ==> prices@.contains(#[trigger] sel[i]))
                &&& distinct_hours(sel)
                &&& (forall|i: int, j: int|
                    0 <= i < sel.len() && 0 <= j < prices@.len() && !has_hour(
                        sel,
                        prices@[j].ts as int,
                    ) ==> lex_at_most(#[trigger] sel[i], #[trigger] prices@[j]))
                &&& r@ == sel.map_values(|p: PricePoint| p.ts)
            },
{
    let hours_needed: usize = if duration_minutes <= 0 {
        0
    } else {
        ((duration_minutes as i64 + 59) / 60) as usize
    };
    let sel = cheapest_hours(prices, hours_needed);
    let mut out: Vec<i64> = Vec::new();
    let mut i: usize = 0;
    while i < sel.len()
        invariant
            0 <= i <= sel@.len(),
            out@.len() == i,
            forall|j: int| 0 <= j < i ==> out@[j] == sel@[j].ts,
        decreases sel@.len() - i,
    {
        out.push(sel[i].ts);
        i += 1;
    }
    proof {
        assert(out@ =~= sel@.map_values(|p: PricePoint| p.ts));
    }
    out
}


/// Stores one hourly price: the point for an hour already present is
/// overwritten in place, a new hour is inserted at its position, so the
/// series stays ordered and each hour keeps a single point.
pub fn upsert_price(series: &mut Vec<PricePoint>, p: PricePoint) -> (replaced: bool)
    requires
        valid_series(old(series)@),
        valid_point(p),
    ensures
        valid_series(final(series)@),
        replaced == has_hour(old(series)@, p.ts as int),
        replaced ==> exists|i: int|
            0 <= i < old(series)@.len() && old(series)@[i].ts == p.ts && final(series)@
                == #[trigger] old(series)@.update(i, p),
        !replaced ==> exists|i: int|
            0 <= i <= old(series)@.len() && final(series)@ == #[trigger] old(series)@.insert(i, p)
                && (forall|j: int| 0 <= j < i ==> old(series)@[j].ts < p.ts) && (forall|j: int|
                i <= j < old(series)@.len() ==> old(series)@[j].ts > p.ts),
{
    let ghost pre = series@;
    let mut i: usize = 0;
    while i < series.len() && series[i].ts < p.ts
        invariant
            0 <= i <= pre.len(),
            pre == series@,
            valid_series(pre),
            forall|j: int| 0 <= j < i ==> pre[j].ts < p.ts,
        decreases pre.len() - i,
    {
        i += 1;
    }
    if i < series.len() && series[i].ts == p.ts {
        let r = &mut *series;
        r.set(i, p);
        proof {
            assert(series@ == pre.update(i as int, p));
            assert(valid_series(series@));
        }
        true
    } else {
        proof {
            assert(i == pre.len() || pre[i as int].ts > p.ts);
            assert(forall|j: int| i <= j < pre.len() ==> pre[j].ts > p.ts) by {
                assert(forall|j: int|
                    i < j < pre.len() ==> pre[i as int].ts < #[trigger] pre[j].ts);
            }
            assert(!has_hour(pre, p.ts as int));
        }
        series.insert(i, p);
        proof {
            assert(series@ == pre.insert(i as int, p));
            assert forall|a: int, b: int|
                0 <= a < b < series@.len() implies series@[a].ts < series@[b].ts by {
                if a < i && b > i {
                    assert(series@[a] == pre[a] && series@[b] == pre[b - 1]);
                } else if a == i {
                    assert(series@[b] == pre[b - 1]);
                } else if b == i {
                    assert(series@[a] == pre[a]);
                }
            }
        }
        false
    }
}

} // verus!
