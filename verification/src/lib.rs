//! Verified core of a voxel engine: block faces and culling masks, brickmap
//! packing, the chunk buffer allocator, swap-buffer bookkeeping, chunk
//! streaming order and the terrain section layout.

pub mod util;
pub mod render;
pub mod world;
pub mod server;
