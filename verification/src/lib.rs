//! The logic of a Wayland status bar.
pub mod backoff;
pub mod bar;
pub mod calendar;
pub mod civil;
pub mod config;
pub mod control;
pub mod dbus;
pub mod extension;
pub mod float;
pub mod glyph;
pub mod json;
pub mod laws;
pub mod mlq;
pub mod modules;
pub mod moment;
pub mod number;
pub mod order;
pub mod paths;
pub mod reading;
pub mod surface;
pub mod text;
