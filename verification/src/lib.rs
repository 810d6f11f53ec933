//! Time-weighted monthly aggregation of a heat-pump sensor log.
//!
//! Every signal value is a fixed-point integer in thousandths of its unit
//! (milli-degrees, milli-watts), every duration a whole number of seconds.
pub mod metric;
pub mod sampler;
pub mod timestamp;
pub mod derived;
pub mod engine;
pub mod stream;
pub mod decimal;
pub mod row;
pub mod log;
