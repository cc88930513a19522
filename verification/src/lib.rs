//! Language logic of a language server for the `noti` layout language.
pub mod ast;
pub mod document;
pub mod features;
pub mod parser;
pub mod protocol;
pub mod schema;
pub mod text;
pub mod utils;
