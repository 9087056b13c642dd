//! What the bar measures for itself.
//!
//! A source publishes what it knows as named values and holds no opinion about how they are
//! drawn, so one reading serves a module that shows a percentage and one that shows a bar.

pub mod audio;
pub mod backlight;
pub mod battery;
pub mod command;
pub mod cpu;
pub mod disk;
pub mod load;
pub mod media;
pub mod memory;
pub mod network;
pub mod nl80211;
pub mod registry;
pub mod slow;
pub mod temperature;
pub mod time;
pub mod unread;
pub mod watch;
pub mod which;

pub use which::{CommandSpec, Which};
