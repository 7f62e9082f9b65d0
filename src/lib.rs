//! Parsing of dialect declarations and identifier lists, and derivation of
//! short entity names from fully qualified ones.
pub mod dialect;
pub mod error;
pub mod escape;
pub mod grammar;
pub mod identifier_set;
pub mod input_field;
pub mod lexis;
mod text;
pub mod transform;

pub use dialect::DialectInput;
pub use error::{DialectError, ErrorView, Span};
pub use identifier_set::IdentifierSet;
pub use input_field::InputField;
