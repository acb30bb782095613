//! A styled-string template compiler for SGR (Select Graphic Rendition)
//! terminal escape sequences.
//!
//! A template is an ordinary string literal containing backslash escapes and
//! brace-delimited style directives (`{+Bold}`, `{-Dim}`, `{#RedFg}`,
//! `{#f(255,0,0)}`, `{name}`, ...). The compiler resolves the escapes and
//! directives into literal `ESC [ codes m` sequences while preserving plain
//! placeholders for a downstream formatter.

pub mod compile;
pub mod error;
pub mod laws;
pub mod literal;
pub mod numbers;
pub mod tables;
pub mod text;
pub mod writing;

pub use crate::error::CompileError;
pub use crate::compile::parse_string;
pub use crate::compile::compile_literal;
pub use crate::literal::unwrap_string;
pub use crate::literal::parse_raw_string;
pub use crate::literal::correct_string;
pub use crate::literal::UnwrappedLiteral;
pub use crate::writing::CapableWriter;
pub use crate::writing::SGRWriter;
pub use crate::writing::StandardWriter;
pub use crate::writing::SGRBuilder;
pub use crate::writing::EasyWrite;
