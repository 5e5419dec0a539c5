//! Schema-driven settings: a typed dynamic value model, column schemas, the
//! validation engine that coerces values to a column's type, and the
//! create / view / update / delete protocol over pluggable backends.

pub mod autogen;
pub mod cfg;
pub mod common_columns;
pub mod display;
pub mod error;
pub mod floats;
pub mod formats;
pub mod json;
pub mod laws;
pub mod operations;
pub mod outside;
pub mod text;
pub mod types;
pub mod ui;
pub mod value;
pub mod words;
