//! What the library promises, said of what goes in and what comes out.

pub mod asking;
pub mod click;
pub mod color;
pub mod command;
pub mod group;
pub mod light;
pub mod menu;
pub mod module;
pub mod moving;
pub mod named;
pub mod number;
pub mod reading;
pub mod refused;
pub mod rule;
pub mod schedule;
pub mod screen;
pub mod sound;
pub mod sources;
pub mod style;
pub mod supply;
pub mod text;
pub mod whole;
pub mod wire;
pub mod wireless;
pub mod words;
