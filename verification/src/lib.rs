//! A compiler for DataLang, a small schema-definition language.
//!
//! Source text is scanned into lines and words, parsed into a list of items,
//! validated, resolved into a schema of entities with concrete field lists,
//! and finally mapped to type definitions.

pub mod annotation;
pub mod constraint;
pub mod directive;
pub mod emitter;
pub mod file;
pub mod grammar;
pub mod laws;
pub mod lexer;
pub mod parser;
pub mod resolver;
pub mod schema;
pub mod text;
pub mod token_parser;
pub mod tokens;
pub mod types;
pub mod validator;

pub use crate::types::{DataLangFile, DataLangItem, FieldAttribute, FieldReference, ParseError};
