//! Time-bucketed aggregation of a power-consumption time series, with an
//! audit log of the queries that were run.

pub mod aggregation;
pub mod calendar;
pub mod engine;
pub mod granularity;
pub mod history;
pub mod laws;

pub use aggregation::{Aggregation, AggregationQuery, PowerByPeriod, Timeseries, Window};
pub use calendar::CalendarDate;
pub use granularity::Granularity;
pub use engine::{QueryEngine, QueryError};
pub use history::{HistoryInsertion, QueryHistory};
