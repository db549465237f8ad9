//! Entities of the control plane: the registry with its typed aliases, the merge audit, the review
//! queue, garbage collection and the triplet checkpoint.

pub mod gc;
pub mod merge;
pub mod registry;
pub mod review;
pub mod triplets;
pub mod validity;
