//! From Cascade deltas to what a protocol mapper is handed.

pub mod delta;
pub mod engine;
pub mod transcode;
pub mod transcode_laws;
pub mod vcot;
