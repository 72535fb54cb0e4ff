//! What holds of the library's parts, over all of their inputs.
pub mod bar;
pub mod battery;
pub mod cards;
pub mod cpu;
pub mod date;
pub mod displays;
pub mod memory;
pub mod notifications;
pub mod origin;
pub mod parts;
pub mod small;
pub mod text;
pub mod values;
pub mod views;
