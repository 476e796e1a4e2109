//! Verified core of the transcoder that turns Cascade conversations into
//! mapper deltas.

pub mod cascade;
pub mod grpc;
pub mod mappers;
pub mod text;
