//! The bar's modules.
pub mod battery;
pub mod bluetooth;
pub mod brightness;
pub mod card;
pub mod cpu;
pub mod date;
pub mod extension;
pub mod extensions;
pub mod gpu;
pub mod id;
pub mod idle_inhibitor;
pub mod launcher;
pub mod memory;
pub mod mpris;
pub mod network;
pub mod notifications;
pub mod origin;
pub mod sampled;
