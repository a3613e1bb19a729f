//! Descriptive statistics over vectors of numbers, and a range generator.
//!
//! The statistics are written once, for every numeric kind that brings the
//! standard arithmetic, comparison and text traits: the 32-bit and 64-bit
//! integers and the floating-point numbers among them.

pub mod generation;
pub mod maths;

pub use generation::arange;
pub use maths::order::without_nan;
pub use maths::order::Operations;
pub use maths::stats::ParseError;
pub use maths::stats::Stats;
