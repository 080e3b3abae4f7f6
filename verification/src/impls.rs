//! Per-type implementations of the serialization contract.

pub mod array;
pub mod demo;
pub mod opt;
pub mod prim;
pub mod string;
pub mod vec;
