pub mod block_data;
pub mod cells;
pub mod chunk;
pub mod chunk_map;
pub mod generation;
pub mod section;
pub mod world_blocks;
pub mod section_map;
