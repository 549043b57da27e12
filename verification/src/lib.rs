//! Small verified tools: a hex dumper, a fixed-block memory pool, a growable
//! vector, a gap-buffer text editor, a line filter, a task store's record
//! logic and a calculator's operator table.
pub mod text;
pub mod wordie;
pub mod vector;
pub mod pool;
pub mod hexaprint;
pub mod calc;
pub mod grep;
pub mod tasker;
