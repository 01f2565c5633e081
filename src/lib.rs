//! An in-process publish/subscribe event bus keyed by event kind.
//!
//! The library holds the bus's state and decides every step of its work:
//! which subscribers are registered for which kind, which published events
//! are admitted into the bounded delivery queue, and to which subscribers the
//! next queued event goes. Running handlers concurrently is left to the
//! program that embeds it.
pub mod registry;
pub mod bus;
pub mod laws;
