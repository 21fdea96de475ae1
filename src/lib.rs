//! A JSON text parser and serializer with verified contracts.
//!
//! Parsing is stated against the functional grammar of `grammar`, and
//! rendering against `render::render_json`.
pub mod value;
pub mod error;
pub mod grammar;
mod text;
pub mod parser;
pub mod render;
pub mod laws;

pub use error::{ErrorKind, ParseError};
pub use value::{Json, JsonValue};
pub use parser::{parse, Parser};
