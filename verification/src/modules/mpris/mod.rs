//! Media player module: which player runs, on the bar; a transport in the
//! popup.
pub mod value;
pub mod player;
pub mod session;
pub mod state;
pub mod laws;
