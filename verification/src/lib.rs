//! Symbol, import and call extraction over tree-sitter syntax trees.

mod ts_types;

pub mod common;
pub mod consistency;
pub mod csharp;
pub mod javascript;
pub mod language;
pub mod model;
pub mod parser;
pub mod python;
pub mod rust_lang;
pub mod syntax;
pub mod text;
pub mod treesitter;

pub use language::SourceLanguage;
pub use model::{Call, Import, ParseResult, Symbol};
pub use parser::{extract_symbols, parse_source};
pub use syntax::{Field, FieldChildren, SyntaxNode};
pub use treesitter::{syntax_tree, ParseError};
