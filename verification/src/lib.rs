//! A verified, host-callable inference engine core.
//!
//! The library implements the model-state lifecycle and the binary contract
//! between a host and a guest instance that share a linear memory: a
//! bounds-checked view over that memory, a loader that parses a weight buffer
//! into an owned model, and a deterministic forward pass over input token
//! identifiers.

pub mod bytes;
pub mod engine;
pub mod entry;
pub mod format;
pub mod loader;
pub mod model;
pub mod roundtrip;
pub mod state;
pub mod view;
pub mod writer;
