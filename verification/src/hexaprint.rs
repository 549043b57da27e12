//! A hex dump utility: byte colouring, number and line formatting, and the
//! read-by-read dumping state machine.
pub mod color;
pub mod format;
pub mod line;
pub mod dumper;
pub mod binary;
