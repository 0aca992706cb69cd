pub mod buffers;
pub mod grid;
