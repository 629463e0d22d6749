//! A formatter for expressions of the Common Expression Language: it lays a
//! syntax tree out as a document of text, line breaks, indentation and groups,
//! and renders that document within a line width.

pub mod ast;
pub mod doc;
pub mod escape;
pub mod formatter;
pub mod options;

pub use ast::{CallExpr, ComprehensionExpr, EntryExpr, Expr, Literal, SelectExpr, StructExpr};
pub use doc::Doc;
pub use formatter::format_tree;
pub use options::FormatOptions;
