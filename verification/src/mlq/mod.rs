//! The machine-learning queue extension: what the queue daemon sends, how its
//! jobs read, and the frames drawn from them.
pub mod draw;
pub mod extension;
pub mod frame;
pub mod job;
pub mod laws;
pub mod listing;
pub mod wire;
pub mod words;
