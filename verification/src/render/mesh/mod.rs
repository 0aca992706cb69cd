pub mod cube;
pub mod quad;
