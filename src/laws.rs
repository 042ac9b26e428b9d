use vstd::prelude::*;

use crate::aggregation::{
    contributes, in_window, is_aggregation, is_bucket_key, strictly_ascending, total_for,
    PowerByPeriod, Timeseries,
};
use crate::calendar::bucket_start;
use crate::granularity::Granularity;

verus! {

/// Some bucket of `b` starts at `k`.
pub open spec fn has_start(b: Seq<PowerByPeriod>, k: int) -> bool {
    exists|i: int| 0 <= i < b.len() && b[i].timestamp == k
}

/// Two strictly ascending bucket sequences with the same set of starts agree
/// on their starts up to position `i`.
proof fn lemma_ascending_same_starts(b1: Seq<PowerByPeriod>, b2: Seq<PowerByPeriod>, i: int)
    requires
        strictly_ascending(b1),
        strictly_ascending(b2),
        forall|m: int| 0 <= m < b1.len() ==> has_start(b2, #[trigger] b1[m].timestamp as int),
        forall|m: int| 0 <= m < b2.len() ==> has_start(b1, #[trigger] b2[m].timestamp as int),
        0 <= i < b1.len(),
        i < b2.len(),
    ensures
        forall|j: int| 0 <= j <= i ==> #[trigger] b1[j].timestamp == b2[j].timestamp,
    decreases i,
{
    if i > 0 {
        lemma_ascending_same_starts(b1, b2, i - 1);
    }
    let k = b1[i].timestamp as int;
    assert(has_start(b2, k));
    let j = choose|j: int| 0 <= j < b2.len() && b2[j].timestamp == k;
    if j < i {
        assert(b2[j].timestamp == b1[j].timestamp);
        assert(b1[j].timestamp < b1[i].timestamp);
    } else if j > i {
        let k2 = b2[i].timestamp as int;
        assert(b2[i].timestamp < b2[j].timestamp);
        assert(has_start(b1, k2));
        let m = choose|m: int| 0 <= m < b1.len() && b1[m].timestamp == k2;
        if m < i {
            assert(b1[m].timestamp == b2[m].timestamp);
            assert(b2[m].timestamp < b2[i].timestamp);
        } else if m > i {
            assert(b1[i].timestamp < b1[m].timestamp);
        }
    }
}

/// The starts of the buckets of an aggregation are exactly the bucket starts
/// of the readings in the window.
proof fn lemma_starts_are_keys(
    s: Seq<Timeseries>,
    start: int,
    end: int,
    g: Granularity,
    b: Seq<PowerByPeriod>,
    k: int,
)
    requires
        is_aggregation(s, start, end, g, b),
    ensures
        has_start(b, k) <==> is_bucket_key(s, start, end, g, k),
{
    if has_start(b, k) {
        let i = choose|i: int| 0 <= i < b.len() && b[i].timestamp == k;
        assert(is_bucket_key(s, start, end, g, b[i].timestamp as int));
    }
    if is_bucket_key(s, start, end, g, k) {
        let j = choose|j: int| 0 <= j < s.len() && contributes(#[trigger] s[j], start, end, g, k);
        assert(in_window(s[j], start, end));
    }
}

/// An aggregation is determined by the readings, the window and the granularity:
/// two aggregations of the same readings over the same window are equal. So a
/// query run twice over unchanged readings returns the same buckets.
pub proof fn lemma_aggregation_unique(
    s: Seq<Timeseries>,
    start: int,
    end: int,
    g: Granularity,
    b1: Seq<PowerByPeriod>,
    b2: Seq<PowerByPeriod>,
)
    requires
        is_aggregation(s, start, end, g, b1),
        is_aggregation(s, start, end, g, b2),
    ensures
        b1 == b2,
{
    assert forall|m: int| 0 <= m < b1.len() implies has_start(b2, #[trigger] b1[m].timestamp as int) by {
        lemma_starts_are_keys(s, start, end, g, b1, b1[m].timestamp as int);
        lemma_starts_are_keys(s, start, end, g, b2, b1[m].timestamp as int);
        assert(has_start(b1, b1[m].timestamp as int));
    }
    assert forall|m: int| 0 <= m < b2.len() implies has_start(b1, #[trigger] b2[m].timestamp as int) by {
        lemma_starts_are_keys(s, start, end, g, b1, b2[m].timestamp as int);
        lemma_starts_are_keys(s, start, end, g, b2, b2[m].timestamp as int);
        assert(has_start(b2, b2[m].timestamp as int));
    }
    let n = if b1.len() < b2.len() { b1.len() as int } else { b2.len() as int };
    if n > 0 {
        lemma_ascending_same_starts(b1, b2, n - 1);
    }
    if b1.len() > b2.len() {
        let k = b1[n].timestamp as int;
        assert(has_start(b2, k));
        let j = choose|j: int| 0 <= j < b2.len() && b2[j].timestamp == k;
        assert(b1[j].timestamp == b2[j].timestamp);
        assert(b1[j].timestamp < b1[n].timestamp);
    }
    if b2.len() > b1.len() {
        let k = b2[n].timestamp as int;
        assert(has_start(b1, k));
        let j = choose|j: int| 0 <= j < b1.len() && b1[j].timestamp == k;
        assert(b1[j].timestamp == b2[j].timestamp);
        assert(b2[j].timestamp < b2[n].timestamp);
    }
    assert forall|i: int| 0 <= i < b1.len() implies #[trigger] b1[i] == b2[i] by {
        assert(b1[i].timestamp == b2[i].timestamp);
    }
    assert(b1 =~= b2);
}

/// Each reading in the window is counted in exactly one bucket, and that
/// bucket's total is the sum of the quantities of the readings that fall in it.
pub proof fn lemma_reading_in_one_bucket(
    s: Seq<Timeseries>,
    start: int,
    end: int,
    g: Granularity,
    b: Seq<PowerByPeriod>,
    j: int,
)
    requires
        is_aggregation(s, start, end, g, b),
        0 <= j < s.len(),
        in_window(s[j], start, end),
    ensures
        exists|i: int|
            0 <= i < b.len() && b[i].timestamp == bucket_start(g, s[j].time as int)
                && b[i].total_quantity == total_for(s, start, end, g, b[i].timestamp as int)
                && forall|i2: int|
                0 <= i2 < b.len() && b[i2].timestamp == b[i].timestamp ==> i2 == i,
{
    let i = choose|i: int| 0 <= i < b.len() && b[i].timestamp == bucket_start(g, s[j].time as int);
    assert forall|i2: int| 0 <= i2 < b.len() && b[i2].timestamp == b[i].timestamp implies i2 == i by {
        if i2 < i {
            assert(b[i2].timestamp < b[i].timestamp);
        } else if i2 > i {
            assert(b[i].timestamp < b[i2].timestamp);
        }
    }
    assert(b[i].total_quantity == total_for(s, start, end, g, b[i].timestamp as int));
}

/// A reading at the instant that ends the window changes nothing: the
/// aggregations with and without it are the same.
pub proof fn lemma_end_excluded(
    s: Seq<Timeseries>,
    r: Timeseries,
    start: int,
    end: int,
    g: Granularity,
    b: Seq<PowerByPeriod>,
)
    requires
        r.time == end,
    ensures
        is_aggregation(s.push(r), start, end, g, b) <==> is_aggregation(s, start, end, g, b),
{
    let s2 = s.push(r);
    assert(s2.drop_last() =~= s);
    assert forall|k: int| total_for(s2, start, end, g, k) == total_for(s, start, end, g, k) by {
        assert(!contributes(r, start, end, g, k));
    }
    assert forall|k: int| is_bucket_key(s2, start, end, g, k) <==> is_bucket_key(s, start, end, g, k) by {
        if is_bucket_key(s2, start, end, g, k) {
            let w = choose|w: int| 0 <= w < s2.len() && contributes(#[trigger] s2[w], start, end, g, k);
            assert(w < s.len());
            assert(s2[w] == s[w]);
        }
        if is_bucket_key(s, start, end, g, k) {
            let w = choose|w: int| 0 <= w < s.len() && contributes(#[trigger] s[w], start, end, g, k);
            assert(s2[w] == s[w]);
        }
    }
    if is_aggregation(s, start, end, g, b) {
        assert forall|j: int| 0 <= j < s2.len() && in_window(#[trigger] s2[j], start, end) implies exists|i: int|
            0 <= i < b.len() && b[i].timestamp == bucket_start(g, s2[j].time as int) by {
            assert(j < s.len());
            assert(s2[j] == s[j]);
        }
    }
    if is_aggregation(s2, start, end, g, b) {
        assert forall|j: int| 0 <= j < s.len() && in_window(#[trigger] s[j], start, end) implies exists|i: int|
            0 <= i < b.len() && b[i].timestamp == bucket_start(g, s[j].time as int) by {
            assert(s2[j] == s[j]);
        }
    }
}

/// A window that holds no reading has the empty aggregation, and only that one.
pub proof fn lemma_empty_window(
    s: Seq<Timeseries>,
    start: int,
    end: int,
    g: Granularity,
    b: Seq<PowerByPeriod>,
)
    requires
        forall|j: int| 0 <= j < s.len() ==> !in_window(#[trigger] s[j], start, end),
    ensures
        is_aggregation(s, start, end, g, b) <==> b.len() == 0,
{
    if is_aggregation(s, start, end, g, b) && b.len() > 0 {
        assert(is_bucket_key(s, start, end, g, b[0].timestamp as int));
        let w = choose|w: int| 0 <= w < s.len() && contributes(#[trigger] s[w], start, end, g, b[0].timestamp as int);
        assert(in_window(s[w], start, end));
    }
}

} // verus!
