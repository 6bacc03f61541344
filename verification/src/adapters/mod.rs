//! Backends that carry out commands.

pub mod atspi;
pub mod mock;
