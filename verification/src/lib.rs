//! A typed parameter registry: named, independently-typed configuration
//! values, each optionally constrained by a numeric range and a block or
//! allow list, with human-readable metadata and the ability to populate
//! values from simple `key value` text lines.

pub mod laws;
pub mod model;
pub mod parameter;
pub mod parse;
pub mod registry;
pub mod text;
pub mod value;

pub use registry::ParameterBox;
pub use registry::ParameterBoxError;
