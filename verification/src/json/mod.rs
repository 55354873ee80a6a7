//! JSON values.

pub mod outside;
pub mod tree;
pub mod value;
