//! A minimal ticket registry over a flat key/value store of 256-bit words.
//!
//! Tickets are created once, consumed once, and counted by a global counter.
//! Every ticket record lives at a fixed place in the store, so the whole
//! registry state is the store itself.

pub mod word;
pub mod layout;
pub mod store;
pub mod registry;
pub mod laws;
