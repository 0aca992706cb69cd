pub mod terrain;
pub mod transformer;
