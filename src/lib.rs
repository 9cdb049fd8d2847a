//! Post-analysis pipeline for federated Byzantine agreement systems: a result
//! cache keyed by canonical structure, faulty-node reduction, merging of nodes
//! into groups, and re-minimization of the resulting collections of node sets.

pub mod cache;
pub mod engine;
pub mod pipeline;
pub mod sets;
pub mod transform;
