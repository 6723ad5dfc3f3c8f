//! Core of a small service that records refinement meetings for a project:
//! each meeting has a status lifecycle, an ordered transcript of chat-style
//! messages, and optionally a structured output awaiting synchronization.
//!
//! The crate owns the persistence semantics (an in-memory store, the
//! service's default configuration) and the request-handling logic on top of
//! it. HTTP plumbing and wire encoding live outside.

pub mod api;
mod idgen;
pub mod laws;
pub mod model;
pub mod store;
