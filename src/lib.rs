//! A per-device store-and-forward message queue: ordered, idempotent admission
//! of envelopes, removal by guid, and availability listeners.

pub mod envelope;
pub mod queue_model;
pub mod cache;
pub mod notifier;
pub mod removed;
pub mod manager;
pub mod laws;
pub mod keys;
pub mod state;
