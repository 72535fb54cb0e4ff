//! Brightness, for internal panels and external monitors.
//!
//! Displays are detected once, values are cached and drawn from the cache, and
//! writes are coalesced per display: one write at a time, always with the
//! newest value.
pub mod display;
pub mod laws;
pub mod level;
pub mod modes;
pub mod state;
pub mod popup;
pub mod probe;
