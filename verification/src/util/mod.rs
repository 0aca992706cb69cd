pub mod int_vec;
pub mod more_vec;
pub mod nd_array;
pub mod util;
