//! Splits markdown cheatsheets into prose and fenced code, and prepares
//! both for display on a terminal.
pub mod escape;
pub mod highlight;
pub mod render;
pub mod segment;
pub mod sheet;
pub mod style;
pub mod syntax;
