use vstd::prelude::*;

use crate::aggregation::{
    aggregate_query, is_aggregation, valid_readings, window_end, window_start, Aggregation,
    AggregationQuery, Timeseries,
};
use crate::calendar::{valid_instant, SECONDS_PER_DAY};
use crate::history::{entry_of, is_most_recent, last_ten, QueryHistory};

verus! {

/// Why a query or a read of the history failed.
#[derive(Clone, Copy, Debug, PartialEq, Eq, Structural)]
pub enum QueryError {
    /// No transactional resource could be had.
    ResourceUnavailable,
    /// The unit of reading buckets and recording the query did not commit.
    TransactionFailure,
}

/// A store of readings and of the history of queries, in memory. A query reads
/// the readings and records itself in the history as one unit: either both
/// happen or neither does.
pub struct QueryEngine {
    readings: Vec<Timeseries>,
    history: Vec<QueryHistory>,
}

impl QueryEngine {
    /// The stored readings, in the order they were added.
    pub closed spec fn stored_readings(self) -> Seq<Timeseries> {
        self.readings@
    }

    /// Every stored reading has an instant in the supported range.
    pub open spec fn wf(self) -> bool {
        valid_readings(self.stored_readings())
    }

    /// The recorded queries, in the order they were committed.
    pub closed spec fn stored_history(self) -> Seq<QueryHistory> {
        self.history@
    }

    /// An engine with no readings and no history.
    pub fn new() -> (r: QueryEngine)
        ensures
            r.wf(),
            r.stored_readings().len() == 0,
            r.stored_history().len() == 0,
    {
        QueryEngine { readings: Vec::new(), history: Vec::new() }
    }

    /// Stores reading `r` if its instant lies in the supported range, and says whether it did.
    pub fn add_reading(&mut self, r: Timeseries) -> (added: bool)
        requires
            old(self).wf(),
        ensures
            final(self).wf(),
            added == valid_instant(r.time as int),
            added ==> final(self).stored_readings() == old(self).stored_readings().push(r),
            !added ==> final(self).stored_readings() == old(self).stored_readings(),
            final(self).stored_history() == old(self).stored_history(),
    {
        if r.in_supported_range() {
            self.readings.push(r);
            proof {
                assert forall|i: int| 0 <= i < self.readings@.len() implies valid_instant(
                    #[trigger] self.readings@[i].time as int,
                ) by {
                    if i < self.readings@.len() - 1 {
                        assert(self.readings@[i] == old(self).readings@[i]);
                    }
                }
            }
            true
        } else {
            false
        }
    }

    /// Runs query `q` at instant `now` as one unit with the recording of the query.
    /// `commit` is the outcome of committing that unit. On success the buckets are
    /// returned and the query is in the history; on failure the error is returned
    /// and the history is as it was.
    pub fn execute_query(
        &mut self,
        q: &AggregationQuery,
        now: i64,
        commit: Result<(), QueryError>,
    ) -> (r: Result<Aggregation, QueryError>)
        requires
            old(self).wf(),
            now <= i64::MAX - SECONDS_PER_DAY,
        ensures
            final(self).wf(),
            final(self).stored_readings() == old(self).stored_readings(),
            commit is Ok ==> (r matches Ok(a) && is_aggregation(
                old(self).stored_readings(),
                window_start(*q),
                window_end(*q, now as int),
                q.granularity,
                a.results@,
            )),
            commit is Ok ==> final(self).stored_history() == old(self).stored_history().push(
                entry_of(*q, now as int),
            ),
            commit matches Err(e) ==> r == Err::<Aggregation, QueryError>(e)
                && final(self).stored_history() == old(self).stored_history(),
    {
        let aggregation = aggregate_query(&self.readings, q, now);
        let entry = QueryHistory::record(q, now);
        match commit {
            Ok(()) => {
                self.history.push(entry);
                Ok(aggregation)
            },
            Err(e) => Err(e),
        }
    }

    /// The most recent recorded queries, newest first, at most ten.
    pub fn recent_history(&self) -> (r: Vec<QueryHistory>)
        ensures
            is_most_recent(self.stored_history(), r@),
    {
        last_ten(&self.history)
    }
}

} // verus!
