//! A fixed-memory histogram over unsigned integer observations.
//!
//! Values are stored in a pre-allocated array of saturating counters.  Small
//! values get one slot each (the linear region); larger values are grouped
//! into power-of-two bands, each band subdivided into a fixed number of
//! sub-buckets (the logarithmic region), so that percentile queries keep a
//! configurable number of significant decimal digits of relative error
//! across the whole value range.

pub mod arith;
pub mod histogram;
pub mod mapping;
pub mod query;

pub use crate::histogram::{
    Histogram, HistogramBucket, HistogramConfig, HistogramCounters, HistogramData, HistogramError,
    HistogramProperties,
};
