//! Apply a pure transformation to every element of a vector, choosing at run
//! time between a sequential loop and chunked parallel execution.
//!
//! Two policies drive the choice: a size policy (split when the input is long)
//! and a time policy (run sequentially until a wall-clock budget is spent, then
//! hand the unprocessed suffix to the parallel path). Both return a fresh
//! vector in which every position holds a result of the transformation applied
//! to the corresponding input element, whatever path was taken.

pub mod chunks;
pub mod clock;
pub mod laws;
pub mod parallel;
pub mod policy;
