//! Persistence-layer glue between a transactional key-value store and an
//! embedded LSM storage engine: a column-family reconciliation planner and a
//! per-file multi-version statistics collector with its wire codec and key
//! transforms.

pub mod codec;
pub mod collector;
pub mod keys;
pub mod properties;
pub mod reconcile;
pub mod transform;
pub mod types;
