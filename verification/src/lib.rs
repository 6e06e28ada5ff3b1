//! Seed recovery for the Nether bedrock pattern.
//!
//! The library holds the verified core of the search: Java's LCG as used by
//! the world generator, the per-block checks derived from observed bedrock,
//! the permissive checks evaluated on the GPU, the CPU finalization of GPU
//! candidates, and the batch schedule of a search. Driving an OpenCL device
//! is left to the surrounding program.

pub mod lcg;
pub mod block_data;
pub mod error;
pub mod gpu;
pub mod context;
pub mod search;
