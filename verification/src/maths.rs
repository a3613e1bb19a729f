//! Statistics and the numeric kinds they work on.

pub mod frequency;
pub mod kinds;
pub mod laws;
pub mod numeric;
pub mod order;
pub mod sorting;
pub mod stats;
