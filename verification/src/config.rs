//! Declarative configuration and the style cascade.
//!
//! Reading happens in two steps: the tables of the file fill the `raw` structures, and then
//! they are resolved, which turns `$name` color references and style names into concrete
//! values so that nothing downstream has to look anything up while drawing.

pub mod button;
pub mod duration;
pub mod group;
pub mod icon;
pub mod known;
pub mod module;
pub mod raw;
pub mod refusal;
pub mod rule;
pub mod share;
pub mod source;
pub mod style;
pub mod whole;
