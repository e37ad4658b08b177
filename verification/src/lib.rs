//! Well-Known Text geometries: a tokenizer and parser from text to a typed
//! geometry tree, and conversions between that tree and a plain geometry model.

pub mod error;
pub mod geo;
pub mod geometry;
pub mod grammar;
pub mod laws;
pub mod number;
pub mod parser;
pub mod text;
pub mod togeo;
pub mod towkt;
pub mod tokenizer;
pub mod types;

pub use crate::geometry::{Geometry, Wkt};
pub use crate::togeo::ToGeo;
pub use crate::towkt::ToWkt;
