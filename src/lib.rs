//! Turns clock times into minute offsets across a seven-day window and
//! renders them as a bracketed, comma-separated list.
pub mod error;
pub mod time;
pub mod values;
pub mod text;
pub mod args;
