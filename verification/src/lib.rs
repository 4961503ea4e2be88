//! Numeric core of a tensor computation library: shapes with broadcasting,
//! a device storage abstraction, and the generic array operations
//! (fill, map, zip-map, reduce) that the arithmetic layer is built on.

pub mod array_ops;
pub mod data;
pub mod device;
pub mod error;
pub mod shape;
pub mod tensor;
