//! Semantic core of a language server for a small, import-free schema
//! description language (tables with fields and aliases, enums, and
//! relationship references between table fields).
//!
//! The language has a single document structure with no imports, so every
//! request can work from one source text and one syntax tree. The external
//! parsing engine produces the tree; this crate models the tree as plain
//! data and performs everything that follows: building an identifier index,
//! classifying a cursor position, computing completion candidates, and
//! resolving structural renames.

pub mod completion;
pub mod index;
pub mod navigation;
pub mod rename;
pub mod session;
pub mod text;
pub mod tree;
pub mod wrappers;

pub use completion::complete_at_point;
pub use index::{populate_identifiers, FieldInfo, IdentifiersMap};
pub use navigation::{find_location_on_ast, node_parent_identifier, search_valid_node, CursorLocation};
pub use rename::{rename, replace_rule_with_pattern, RenameRules, TextEdit, WorkspaceEdit};
pub use session::DocumentSession;
pub use tree::{FieldLabel, Node, NodeKind, SyntaxTree};
pub use wrappers::{Point, Position, Range};
