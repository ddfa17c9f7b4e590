//! Names with a meaning of their own.

pub mod fields;
pub mod metrics;
