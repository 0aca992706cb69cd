pub mod accumulation;
pub mod brick;
pub mod buffer;
pub mod mesh;
pub mod texture;
pub mod util;
