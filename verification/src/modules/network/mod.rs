//! Network module: the connection on the bar; addresses, saved profiles and
//! nearby networks in the popup.
pub mod laws;
pub mod snapshot;
pub mod read;
pub mod signal;
pub mod state;
