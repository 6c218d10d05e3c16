//! Robust bounding-box estimation over a binary edge map.
//!
//! The estimator probes the central band of an externally produced edge map
//! along roughly one hundred sampled rows and columns, collects the first and
//! last edge coordinate of every sampled line, and reduces each side's
//! collection to its lower median.  The median makes the resulting rectangle
//! robust against isolated noise pixels in the edge map.

pub mod median;
pub mod types;
pub mod estimator;
