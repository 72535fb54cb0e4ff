//! Bluetooth module: whether anything is connected, on the bar; devices and
//! their batteries in the popup.
pub mod tree;
pub mod merge;
pub mod signal;
pub mod cell;
pub mod state;
pub mod laws;
