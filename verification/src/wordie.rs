//! A small text editor built on a gap buffer.
pub mod gap_buffer;
pub mod editor;
pub use gap_buffer::GapBuffer;
pub use editor::{CursorPos, Editor};
