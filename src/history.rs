use vstd::prelude::*;

use crate::aggregation::AggregationQuery;
use crate::calendar::CalendarDate;
use crate::granularity::{granularity_name, Granularity};

verus! {

broadcast use vstd::seq_lib::group_to_multiset_ensures;

/// How many entries a read of the history returns at most.
pub const HISTORY_LIMIT: usize = 10;

/// One recorded query: when it ran (seconds since the Unix epoch, by the
/// server's clock) and the parameters it was given.
#[derive(Clone, Copy, Debug, PartialEq, Eq)]
pub struct QueryHistory {
    pub query_time: i64,
    pub from_date: Option<CalendarDate>,
    pub to_date: Option<CalendarDate>,
    pub granularity: Option<Granularity>,
}

/// What is written to the history for a query: its parameters as the caller
/// gave them, the granularity by its request name.
#[derive(Clone, Debug)]
pub struct HistoryInsertion {
    pub from_date: Option<CalendarDate>,
    pub to_date: Option<CalendarDate>,
    pub granularity: String,
}

impl HistoryInsertion {
    /// The history record of query `q`, with the dates as given, not as resolved.
    pub fn from_query(q: &AggregationQuery) -> (r: HistoryInsertion)
        ensures
            r.from_date == q.from,
            r.to_date == q.to,
            r.granularity@ == granularity_name(q.granularity),
    {
        HistoryInsertion { from_date: q.from, to_date: q.to, granularity: q.granularity.to_string() }
    }
}

/// The history entry that records query `q` run at `query_time`.
pub open spec fn entry_of(q: AggregationQuery, query_time: int) -> QueryHistory {
    QueryHistory {
        query_time: query_time as i64,
        from_date: q.from,
        to_date: q.to,
        granularity: Some(q.granularity),
    }
}

impl QueryHistory {
    /// The history entry that records query `q` run at `query_time`.
    pub fn record(q: &AggregationQuery, query_time: i64) -> (r: QueryHistory)
        ensures
            r == entry_of(*q, query_time as int),
    {
        QueryHistory {
            query_time,
            from_date: q.from,
            to_date: q.to,
            granularity: Some(q.granularity),
        }
    }
}

/// The entries of `h` do not grow later in time from front to back.
pub open spec fn newest_first(h: Seq<QueryHistory>) -> bool {
    forall|a: int, c: int| 0 <= a < c < h.len() ==> h[a].query_time >= h[c].query_time
}

/// `r` is the most recent part of `h`: at most `HISTORY_LIMIT` entries taken
/// from `h`, newest first, and no entry of `h` left out is newer than the last
/// one kept.
pub open spec fn is_most_recent(h: Seq<QueryHistory>, r: Seq<QueryHistory>) -> bool {
    &&& r.len() == if h.len() < HISTORY_LIMIT { h.len() } else { HISTORY_LIMIT as nat }
    &&& newest_first(r)
    &&& r.to_multiset().subset_of(h.to_multiset())
    &&& forall|x: QueryHistory|
        h.to_multiset().count(x) > r.to_multiset().count(x) ==> x.query_time <= r.last().query_time
}

/// The `HISTORY_LIMIT` most recent entries of `entries`, newest first.
pub fn last_ten(entries: &Vec<QueryHistory>) -> (r: Vec<QueryHistory>)
    ensures
        is_most_recent(entries@, r@),
{
    let mut kept: Vec<QueryHistory> = Vec::new();
    let ghost mut dropped: Seq<QueryHistory> = Seq::empty();
    let n = entries.len();
    let mut i: usize = 0;
    while i < n
        invariant
            n == entries@.len(),
            i <= n,
            kept@.len() == if i < HISTORY_LIMIT { i as nat } else { HISTORY_LIMIT as nat },
            newest_first(kept@),
            kept@.to_multiset().add(dropped.to_multiset()) == entries@.take(i as int).to_multiset(),
            dropped.len() > 0 ==> kept@.len() == HISTORY_LIMIT,
            forall|k: int| 0 <= k < dropped.len() ==> #[trigger] dropped[k].query_time <= kept@.last().query_time,
        decreases n - i,
    {
        let e = entries[i];
        assert(entries@.take(i + 1) =~= entries@.take(i as int).push(e));
        let ghost old_kept = kept@;
        let ghost old_dropped = dropped;
        let mut p: usize = 0;
        while p < kept.len() && kept[p].query_time >= e.query_time
            invariant
                p <= kept@.len(),
                forall|m: int| 0 <= m < p ==> kept@[m].query_time >= e.query_time,
            decreases kept@.len() - p,
        {
            p = p + 1;
        }
        if p < HISTORY_LIMIT {
            kept.insert(p, e);
            proof {
                let nk = kept@;
                assert(nk == old_kept.insert(p as int, e));
                assert forall|m: int| 0 <= m < p implies #[trigger] nk[m] == old_kept[m] by {}
                assert forall|m: int| p <= m < old_kept.len() implies #[trigger] nk[m + 1] == old_kept[m] by {}
                assert forall|a: int, c: int| 0 <= a < c < nk.len() implies nk[a].query_time >= nk[c].query_time by {
                    if c <= p {
                        if c < p {
                            assert(nk[a] == old_kept[a]);
                            assert(nk[c] == old_kept[c]);
                        } else {
                            assert(nk[a] == old_kept[a]);
                        }
                    } else if a == p {
                        assert(nk[c] == old_kept[c - 1]);
                        assert(old_kept[p as int].query_time < e.query_time);
                    } else if a < p {
                        assert(nk[a] == old_kept[a]);
                        assert(nk[c] == old_kept[c - 1]);
                    } else {
                        assert(nk[a] == old_kept[a - 1]);
                        assert(nk[c] == old_kept[c - 1]);
                    }
                }
                assert(kept@.to_multiset() == old_kept.to_multiset().insert(e));
                assert(kept@.to_multiset().add(dropped.to_multiset()) =~= entries@.take(i + 1).to_multiset());
            }
            if kept.len() > HISTORY_LIMIT {
                let ghost before_pop = kept@;
                let x = kept.pop().unwrap();
                proof {
                    assert(before_pop =~= kept@.push(x));
                    assert(kept@[kept@.len() - 1] == before_pop[kept@.len() - 1]);
                    dropped = dropped.push(x);
                    assert(kept@.to_multiset().add(dropped.to_multiset()) =~= entries@.take(i + 1).to_multiset());
                    assert(old_kept.last().query_time <= kept@.last().query_time) by {
                        assert(old_kept.len() == HISTORY_LIMIT);
                        if p < 9 {
                            assert(kept@[9] == old_kept[8]);
                        }
                    }
                    assert forall|k: int| 0 <= k < dropped.len() implies #[trigger] dropped[k].query_time <= kept@.last().query_time by {
                        if k < old_dropped.len() {
                            assert(dropped[k] == old_dropped[k]);
                        }
                    }
                }
            } else {
                proof {
                    assert(dropped.len() == 0);
                }
            }
        } else {
            proof {
                dropped = dropped.push(e);
                assert(kept@.to_multiset().add(dropped.to_multiset()) =~= entries@.take(i + 1).to_multiset());
                assert forall|k: int| 0 <= k < dropped.len() implies #[trigger] dropped[k].query_time <= kept@.last().query_time by {
                    if k < old_dropped.len() {
                        assert(dropped[k] == old_dropped[k]);
                    } else {
                        assert(kept@[kept@.len() - 1].query_time >= e.query_time);
                    }
                }
            }
        }
        i = i + 1;
    }
    proof {
        assert(entries@.take(n as int) =~= entries@);
        assert forall|x: QueryHistory| entries@.to_multiset().count(x) > kept@.to_multiset().count(x)
            implies x.query_time <= kept@.last().query_time by {
            assert(dropped.to_multiset().count(x) > 0);
            assert(dropped.contains(x));
            let k = choose|k: int| 0 <= k < dropped.len() && dropped[k] == x;
            assert(dropped[k].query_time <= kept@.last().query_time);
        }
    }
    kept
}

} // verus!
