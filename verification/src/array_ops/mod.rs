pub mod arith;
pub mod count;
pub mod fill;
pub mod map;
pub mod map_inner;
pub mod reduce;
pub mod reduce_inner;
pub mod zero;
pub mod zip_map;
