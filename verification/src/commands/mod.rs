//! What the user and the engine make the viewer do.

pub mod base64;
pub mod ingest;
pub mod keys;
pub mod laws;
pub mod level;
pub mod outcome;
pub mod perform;
