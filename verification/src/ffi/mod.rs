//! What the app sees of the engine.

pub mod engine;
pub mod laws;
pub mod mapping;
pub mod record_laws;
pub mod session;
