//! Headlines: their parts, their timestamps, and the builder that puts them
//! together.

pub mod builder;
pub mod parser;
pub mod section;
pub mod tags;
pub mod timestamp;
pub mod timestamp_laws;
pub mod timestamp_parse;
pub mod timestamp_write;
pub mod value;
