//! Classic in-memory comparison sorts, verified, and the harness that times
//! them against one another on random input.

pub mod order;
pub mod sequence;
pub mod slices;
pub mod selection;
pub mod merge;
pub mod heap_model;
pub mod heap;
pub mod bubble;
pub mod insertion;
pub mod sizes;
pub mod clock;
pub mod random;
pub mod harness;
pub mod self_check;
pub mod report;
pub mod laws;
