//! A JSON-like text format: the value tree, its reader and its writer.

pub mod equal;
pub mod error;
pub mod grammar;
pub mod laws;
pub mod number;
pub mod object;
pub mod parser;
pub mod render;
pub mod round_trip;
pub mod value;
pub mod wellformed;
