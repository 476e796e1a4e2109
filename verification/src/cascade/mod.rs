//! Conversations with the language server's Cascade engine.

pub mod client;
pub mod image;
pub mod laws;
pub mod poll;
pub mod poll_laws;
pub mod reactive;
pub mod trajectory;
