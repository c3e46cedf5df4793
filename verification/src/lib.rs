//! A minimal N-dimensional tensor core: strided views over a shared buffer,
//! with construction, reshaping, sub-indexing, row-major traversal, deep
//! copies and a textual renderer.

pub mod display;
pub mod error;
pub mod iter;
pub mod layout;
pub mod random;
pub mod tensor;
pub mod text;
