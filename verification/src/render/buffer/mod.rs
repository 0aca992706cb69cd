pub mod allocator;
pub mod swap_buffer;
pub mod task_buffer;
pub mod vertex_buffer;
