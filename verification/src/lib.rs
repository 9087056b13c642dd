//! The logic of a status bar: what it reads off the machine and off the session bus, when
//! it reads it, and what a click on the result means.

pub mod app;
pub mod collect;
pub mod color;
pub mod config;
pub mod dbus;
pub mod extended;
pub mod laws;
pub mod natural;
pub mod number;
pub mod status;
pub mod table;
pub mod text;
pub mod time;
