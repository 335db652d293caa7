//! Gap filling for sparse, integer-indexed one-dimensional datasets.
//!
//! A dataset is a sequence of points, each holding an integer axis position
//! and the IEEE 754 bit pattern of the value measured there.  An
//! `ImbueContext` derives the axis range spanned by a dataset and the count
//! of missing positions; the three strategies `average`, `zeroed` and
//! `last_known` synthesize one point for every missing position.  The
//! caller is responsible for merging the synthesized points with the original
//! dataset; this crate only returns the gaps it fills.

pub mod context;
pub mod float_bits;
pub mod gaps;
pub mod point;
pub mod strategies;

pub use context::{ImbueContext, ImbueError};
pub use point::DataPoint;
pub use strategies::{average, last_known, rocket, zeroed, ImbueStrategy};
