//! The line and level helpers that other code is most likely to want.

pub use crate::structure::{lex_level, lex_level_str, line};
