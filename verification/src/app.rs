//! What the bar does about what happens to it.
//!
//! Every decision is taken here, from plain values to plain values; drawing, the compositor and
//! the threads that wait are whoever runs the bar's to work.

pub mod autohide;
pub mod click;
pub mod gesture;
pub mod menu;
pub mod provider;
pub mod screen;
pub mod scroll;
pub mod source;
pub mod spin;
pub mod travel;
