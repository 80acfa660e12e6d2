//! Multi-language structural code navigation: outlines, skeletons, definition
//! lookup and project summaries computed over tree-sitter syntax trees.

pub mod error;
pub mod text;
pub mod syntax;
pub mod parser;
pub mod languages;
pub mod ops;
