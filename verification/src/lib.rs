//! Pipelined execution layer: a coordinator that drives ordered blocks
//! through the execute, merklize, seal, verify and make-canonical stages,
//! overlapping consecutive block numbers while serialising each stage
//! through keyed rendezvous barriers.

pub mod types;
pub mod amount;
pub mod channel;
pub mod prefilter;
pub mod block_build;
pub mod pipeline;
