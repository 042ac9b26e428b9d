use vstd::prelude::*;

use crate::calendar::{
    bucket_start, truncate, valid_instant, CalendarDate, MAX_INSTANT, MIN_INSTANT, SECONDS_PER_DAY,
};
use crate::granularity::Granularity;

verus! {

/// One reading of the series: an instant (seconds since the Unix epoch, UTC)
/// and the energy measured there, in watt-hours.
#[derive(Clone, Copy, Debug, PartialEq, Eq)]
pub struct Timeseries {
    pub time: i64,
    pub quantity_wh: i64,
}

/// One bucket of an aggregation: the truncated instant that starts it and the
/// sum of the quantities of the readings that fall in it, in watt-hours.
#[derive(Clone, Copy, Debug, PartialEq, Eq)]
pub struct PowerByPeriod {
    pub timestamp: i64,
    pub total_quantity: i128,
}

/// A request for bucketed sums: a granularity and an optional first and last
/// calendar day, both inclusive.
#[derive(Clone, Copy, Debug, PartialEq, Eq)]
pub struct AggregationQuery {
    pub granularity: Granularity,
    pub from: Option<CalendarDate>,
    pub to: Option<CalendarDate>,
}

/// The buckets of an aggregation, ascending by their start.
#[derive(Clone, Debug)]
pub struct Aggregation {
    pub results: Vec<PowerByPeriod>,
}

/// A half-open interval of instants `[start, end)`.
#[derive(Clone, Copy, Debug, PartialEq, Eq)]
pub struct Window {
    pub start: i64,
    pub end: i64,
}

/// Every reading of `s` has an instant in the supported range.
pub open spec fn valid_readings(s: Seq<Timeseries>) -> bool {
    forall|i: int| 0 <= i < s.len() ==> valid_instant(#[trigger] s[i].time as int)
}

/// Reading `r` lies in the half-open interval `[start, end)`.
pub open spec fn in_window(r: Timeseries, start: int, end: int) -> bool {
    start <= r.time < end
}

/// Reading `r` lies in `[start, end)` and in the bucket of granularity `g` that starts at `key`.
pub open spec fn contributes(r: Timeseries, start: int, end: int, g: Granularity, key: int) -> bool {
    in_window(r, start, end) && bucket_start(g, r.time as int) == key
}

/// The sum of the quantities of the readings of `s` that fall in `[start, end)`
/// and in the bucket that starts at `key`.
pub open spec fn total_for(s: Seq<Timeseries>, start: int, end: int, g: Granularity, key: int) -> int
    decreases s.len(),
{
    if s.len() == 0 {
        0
    } else {
        total_for(s.drop_last(), start, end, g, key) + if contributes(
            s.last(),
            start,
            end,
            g,
            key,
        ) {
            s.last().quantity_wh as int
        } else {
            0
        }
    }
}

/// Some reading of `s` falls in `[start, end)` and in the bucket that starts at `key`.
pub open spec fn is_bucket_key(s: Seq<Timeseries>, start: int, end: int, g: Granularity, key: int) -> bool {
    exists|i: int| 0 <= i < s.len() && contributes(#[trigger] s[i], start, end, g, key)
}

/// The buckets of `b` are strictly ascending by their start.
pub open spec fn strictly_ascending(b: Seq<PowerByPeriod>) -> bool {
    forall|i: int, j: int| 0 <= i < j < b.len() ==> b[i].timestamp < b[j].timestamp
}

/// `b` is the aggregation of the readings `s` over `[start, end)` at granularity `g`:
/// one bucket for each bucket start that some reading of the interval has, ascending,
/// each holding the sum of the quantities of exactly the readings that fall in it.
pub open spec fn is_aggregation(
    s: Seq<Timeseries>,
    start: int,
    end: int,
    g: Granularity,
    b: Seq<PowerByPeriod>,
) -> bool {
    &&& strictly_ascending(b)
    &&& forall|i: int|
        0 <= i < b.len() ==> is_bucket_key(s, start, end, g, #[trigger] b[i].timestamp as int)
            && b[i].total_quantity == total_for(s, start, end, g, b[i].timestamp as int)
    &&& forall|j: int|
        0 <= j < s.len() && in_window(#[trigger] s[j], start, end) ==> exists|i: int|
            0 <= i < b.len() && b[i].timestamp == bucket_start(g, s[j].time as int)
}

/// The first instant of a query's window: midnight of `from`, or the Unix epoch.
pub open spec fn window_start(q: AggregationQuery) -> int {
    match q.from {
        Some(d) => d.day_number() * SECONDS_PER_DAY,
        None => 0,
    }
}

/// The instant that ends a query's window: midnight after `to`, or one day after `now`.
pub open spec fn window_end(q: AggregationQuery, now: int) -> int {
    match q.to {
        Some(d) => (d.day_number() + 1) * SECONDS_PER_DAY,
        None => now + SECONDS_PER_DAY,
    }
}

/// The sum of `n` values of `i64` stays within `n * 2^63` of zero.
proof fn lemma_total_bound(s: Seq<Timeseries>, start: int, end: int, g: Granularity, key: int)
    ensures
        -(s.len() * 0x8000_0000_0000_0000) <= total_for(s, start, end, g, key) <= s.len()
            * 0x8000_0000_0000_0000,
    decreases s.len(),
{
    if s.len() > 0 {
        lemma_total_bound(s.drop_last(), start, end, g, key);
    }
}

impl Timeseries {
    /// Whether this reading's instant lies in the supported range.
    pub fn in_supported_range(&self) -> (r: bool)
        ensures
            r == valid_instant(self.time as int),
    {
        MIN_INSTANT <= self.time && self.time <= MAX_INSTANT
    }
}

impl AggregationQuery {
    /// A query at granularity `granularity` from the day `from` to the day `to`, both inclusive.
    pub fn new(granularity: Granularity, from: Option<CalendarDate>, to: Option<CalendarDate>) -> (r:
        AggregationQuery)
        ensures
            r.granularity == granularity,
            r.from == from,
            r.to == to,
    {
        AggregationQuery { granularity, from, to }
    }

    /// The half-open window of instants that this query covers, with `now` as the
    /// current instant for an open upper end.
    pub fn resolve_window(&self, now: i64) -> (r: Window)
        requires
            now <= i64::MAX - SECONDS_PER_DAY,
        ensures
            r.start == window_start(*self),
            r.end == window_end(*self, now as int),
    {
        let start: i64 = match self.from {
            Some(d) => d.midnight(),
            None => 0,
        };
        let end: i64 = match self.to {
            Some(d) => d.midnight() + SECONDS_PER_DAY,
            None => now + SECONDS_PER_DAY,
        };
        Window { start, end }
    }
}


/// Adding a reading at the end of `s` adds its quantity to its own bucket only.
proof fn lemma_total_push(
    s: Seq<Timeseries>,
    r: Timeseries,
    start: int,
    end: int,
    g: Granularity,
    key: int,
)
    ensures
        total_for(s.push(r), start, end, g, key) == total_for(s, start, end, g, key) + if contributes(
            r,
            start,
            end,
            g,
            key,
        ) {
            r.quantity_wh as int
        } else {
            0
        },
{
    assert(s.push(r).drop_last() =~= s);
}

/// A bucket start that no reading of `s` has collects nothing.
proof fn lemma_total_zero(s: Seq<Timeseries>, start: int, end: int, g: Granularity, key: int)
    requires
        !is_bucket_key(s, start, end, g, key),
    ensures
        total_for(s, start, end, g, key) == 0,
    decreases s.len(),
{
    if s.len() > 0 {
        let t = s.drop_last();
        assert forall|i: int| 0 <= i < t.len() implies !contributes(#[trigger] t[i], start, end, g, key) by {
            assert(t[i] == s[i]);
        }
        lemma_total_zero(t, start, end, g, key);
        assert(s[s.len() - 1] == s.last());
    }
}

/// The first position of `b` whose bucket does not start before `key`.
fn find_position(b: &Vec<PowerByPeriod>, key: i64) -> (p: usize)
    ensures
        p <= b@.len(),
        forall|m: int| 0 <= m < p ==> b@[m].timestamp < key,
        p < b@.len() ==> b@[p as int].timestamp >= key,
{
    let mut p: usize = 0;
    while p < b.len() && b[p].timestamp < key
        invariant
            p <= b@.len(),
            forall|m: int| 0 <= m < p ==> b@[m].timestamp < key,
        decreases b@.len() - p,
    {
        p = p + 1;
    }
    p
}

/// The readings of `readings` that fall in `[window.start, window.end)`, summed
/// per bucket of granularity `g`, with the buckets ascending by their start.
pub fn aggregate(readings: &Vec<Timeseries>, window: Window, g: Granularity) -> (r: Vec<PowerByPeriod>)
    requires
        valid_readings(readings@),
    ensures
        is_aggregation(readings@, window.start as int, window.end as int, g, r@),
{
    let ghost start = window.start as int;
    let ghost end = window.end as int;
    let mut buckets: Vec<PowerByPeriod> = Vec::new();
    let n = readings.len();
    let mut i: usize = 0;
    while i < n
        invariant
            n == readings@.len(),
            i <= n,
            valid_readings(readings@),
            start == window.start,
            end == window.end,
            is_aggregation(readings@.take(i as int), start, end, g, buckets@),
        decreases n - i,
    {
        let ghost s = readings@.take(i as int);
        let ghost old_b = buckets@;
        let r = readings[i];
        let ghost s2 = readings@.take(i + 1);
        assert(s2 =~= s.push(r));
        assert forall|j: int| 0 <= j < s.len() implies #[trigger] s2[j] == s[j] by {}
        if window.start <= r.time && r.time < window.end {
            assert(valid_instant(readings@[i as int].time as int));
            let key = truncate(g, r.time);
            let p = find_position(&buckets, key);
            proof {
                lemma_total_bound(s, start, end, g, key as int);
            }
            if p < buckets.len() && buckets[p].timestamp == key {
                let old_total = buckets[p].total_quantity;
                buckets.set(p, PowerByPeriod { timestamp: key, total_quantity: old_total + r.quantity_wh as i128 });
                proof {
                    assert forall|m: int| 0 <= m < buckets@.len() implies is_bucket_key(
                        s2,
                        start,
                        end,
                        g,
                        #[trigger] buckets@[m].timestamp as int,
                    ) && buckets@[m].total_quantity == total_for(
                        s2,
                        start,
                        end,
                        g,
                        buckets@[m].timestamp as int,
                    ) by {
                        lemma_total_push(s, r, start, end, g, buckets@[m].timestamp as int);
                        assert(is_bucket_key(s, start, end, g, old_b[m].timestamp as int));
                        let w = choose|w: int| 0 <= w < s.len() && contributes(#[trigger] s[w], start, end, g, old_b[m].timestamp as int);
                        assert(s2[w] == s[w]);
                    }
                    assert forall|j: int| 0 <= j < s2.len() && in_window(#[trigger] s2[j], start, end) implies exists|m: int|
                        0 <= m < buckets@.len() && buckets@[m].timestamp == bucket_start(g, s2[j].time as int) by {
                        if j < s.len() {
                            assert(s2[j] == s[j]);
                            let m = choose|m: int| 0 <= m < old_b.len() && old_b[m].timestamp == bucket_start(g, s[j].time as int);
                            assert(buckets@[m].timestamp == old_b[m].timestamp);
                        } else {
                            assert(buckets@[p as int].timestamp == key);
                        }
                    }
                }
            } else {
                proof {
                    assert forall|m: int| 0 <= m < old_b.len() implies #[trigger] old_b[m].timestamp != key by {
                        if m > p {
                            assert(old_b[p as int].timestamp < old_b[m].timestamp);
                        }
                    }
                    if is_bucket_key(s, start, end, g, key as int) {
                        let w = choose|w: int| 0 <= w < s.len() && contributes(#[trigger] s[w], start, end, g, key as int);
                        assert(in_window(s[w], start, end));
                    }
                    lemma_total_zero(s, start, end, g, key as int);
                    lemma_total_push(s, r, start, end, g, key as int);
                }
                buckets.insert(p, PowerByPeriod { timestamp: key, total_quantity: r.quantity_wh as i128 });
                proof {
                    let nb = buckets@;
                    assert forall|m: int| 0 <= m < p implies #[trigger] nb[m] == old_b[m] by {}
                    assert forall|m: int| p <= m < old_b.len() implies #[trigger] nb[m + 1] == old_b[m] by {}
                    assert(nb[p as int].timestamp == key);
                    assert forall|a: int, c: int| 0 <= a < c < nb.len() implies nb[a].timestamp < nb[c].timestamp by {
                        let oa = if a < p { a } else if a == p { -1 } else { a - 1 };
                        let oc = if c < p { c } else if c == p { -1 } else { c - 1 };
                        if a != p && c != p {
                            assert(nb[a] == old_b[oa]);
                            assert(nb[c] == old_b[oc]);
                        } else if a == p {
                            assert(nb[c] == old_b[oc]);
                        } else {
                            assert(nb[a] == old_b[oa]);
                        }
                    }
                    assert forall|m: int| 0 <= m < nb.len() implies is_bucket_key(
                        s2,
                        start,
                        end,
                        g,
                        #[trigger] nb[m].timestamp as int,
                    ) && nb[m].total_quantity == total_for(
                        s2,
                        start,
                        end,
                        g,
                        nb[m].timestamp as int,
                    ) by {
                        if m == p {
                            assert(contributes(s2[i as int], start, end, g, key as int));
                        } else {
                            let om = if m < p { m } else { m - 1 };
                            assert(nb[m] == old_b[om]);
                            lemma_total_push(s, r, start, end, g, old_b[om].timestamp as int);
                            assert(is_bucket_key(s, start, end, g, old_b[om].timestamp as int));
                            let w = choose|w: int| 0 <= w < s.len() && contributes(#[trigger] s[w], start, end, g, old_b[om].timestamp as int);
                            assert(s2[w] == s[w]);
                        }
                    }
                    assert forall|j: int| 0 <= j < s2.len() && in_window(#[trigger] s2[j], start, end) implies exists|m: int|
                        0 <= m < nb.len() && nb[m].timestamp == bucket_start(g, s2[j].time as int) by {
                        if j < s.len() {
                            assert(s2[j] == s[j]);
                            let om = choose|m: int| 0 <= m < old_b.len() && old_b[m].timestamp == bucket_start(g, s[j].time as int);
                            let m = if om < p { om } else { om + 1 };
                            assert(nb[m] == old_b[om]);
                        } else {
                            assert(nb[p as int].timestamp == key);
                        }
                    }
                }
            }
        } else {
            proof {
                assert forall|m: int| 0 <= m < buckets@.len() implies is_bucket_key(
                    s2,
                    start,
                    end,
                    g,
                    #[trigger] buckets@[m].timestamp as int,
                ) && buckets@[m].total_quantity == total_for(
                    s2,
                    start,
                    end,
                    g,
                    buckets@[m].timestamp as int,
                ) by {
                    lemma_total_push(s, r, start, end, g, buckets@[m].timestamp as int);
                    let w = choose|w: int| 0 <= w < s.len() && contributes(#[trigger] s[w], start, end, g, buckets@[m].timestamp as int);
                    assert(s2[w] == s[w]);
                }
                assert forall|j: int| 0 <= j < s2.len() && in_window(#[trigger] s2[j], start, end) implies exists|m: int|
                    0 <= m < buckets@.len() && buckets@[m].timestamp == bucket_start(g, s2[j].time as int) by {
                    assert(j < s.len());
                    assert(s2[j] == s[j]);
                }
            }
        }
        i = i + 1;
    }
    assert(readings@.take(n as int) =~= readings@);
    buckets
}

/// The aggregation that query `q` asks for over `readings`, with `now` as the
/// current instant for an open upper end.
pub fn aggregate_query(readings: &Vec<Timeseries>, q: &AggregationQuery, now: i64) -> (r: Aggregation)
    requires
        valid_readings(readings@),
        now <= i64::MAX - SECONDS_PER_DAY,
    ensures
        is_aggregation(readings@, window_start(*q), window_end(*q, now as int), q.granularity, r.results@),
{
    let window = q.resolve_window(now);
    Aggregation { results: aggregate(readings, window, q.granularity) }
}

} // verus!
