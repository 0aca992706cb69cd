pub mod brickgrid;
pub mod brickmap;
pub mod feedback;
pub mod bitmap;
