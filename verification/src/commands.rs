//! Command handling: one module per command family.

pub mod analysis;
pub mod completion;
pub mod metrics;
pub mod refactor;
