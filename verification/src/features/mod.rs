//! The language features offered to an editor.
pub mod completion;
pub mod definition;
pub mod diagnostics;
pub mod hover;
pub mod inlay_hints;
pub mod rename;
