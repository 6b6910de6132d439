//! Document session state: the current source text, tree, and identifier
//! index of one open document.
//!
//! The three resources follow a fixed rebuild order: source and tree are
//! replaced together, then the index is rebuilt wholesale from them. The
//! session invariant says the index always agrees with the stored source
//! and tree, so readers never observe a half-rebuilt index.

use vstd::prelude::*;

use crate::completion::{complete_at_point, complete_spec};
use crate::index::{build_enums, build_tables, populate_identifiers, IdentifiersMap};
use crate::rename::{rename, rename_spec, workspace_edit_view, WorkspaceEdit};
use crate::tree::SyntaxTree;
use crate::wrappers::{Point, Position};

verus! {

/// One open document's state.
pub struct DocumentSession {
    pub source: String,
    pub tree: SyntaxTree,
    pub identifiers: IdentifiersMap,
}

impl DocumentSession {
    /// The tree is well formed and the index is exactly the one the stored
    /// source and tree produce.
    pub open spec fn wf(self) -> bool {
        &&& self.tree.wf()
        &&& self.identifiers.wf()
        &&& self.identifiers.tables_view() == build_tables(
            self.tree,
            self.source@,
            self.tree.nodes@.len() as int,
        )
        &&& self.identifiers.enums_view() == build_enums(
            self.tree,
            self.source@,
            self.tree.nodes@.len() as int,
        )
    }

    /// Opens a document: stores its text and tree and builds the index.
    pub fn on_open(text: String, tree: SyntaxTree) -> (r: Self)
        requires
            tree.wf(),
        ensures
            r.wf(),
            r.source == text,
            r.tree == tree,
    {
        let identifiers = populate_identifiers(text.as_str(), &tree);
        DocumentSession { source: text, tree, identifiers }
    }

    /// Replaces the document wholesale on a change notification: new text
    /// and tree first, then the index rebuilt from them.
    pub fn on_change(&mut self, text: String, tree: SyntaxTree)
        requires
            tree.wf(),
        ensures
            final(self).wf(),
            final(self).source == text,
            final(self).tree == tree,
    {
        self.source = text;
        self.tree = tree;
        self.identifiers = populate_identifiers(self.source.as_str(), &self.tree);
    }

    /// Completion candidates at `position` against this session's state.
    pub fn complete(&self, position: Position, trigger_character: Option<char>) -> (r: Option<
        Vec<String>,
    >)
        requires
            self.wf(),
        ensures
            match r {
                Option::Some(v) => complete_spec(
                    self.tree,
                    self.source@,
                    self.identifiers,
                    Point { row: position.line, column: position.character },
                    trigger_character,
                ) == Option::Some(v@.map_values(|s: String| s@)),
                Option::None => complete_spec(
                    self.tree,
                    self.source@,
                    self.identifiers,
                    Point { row: position.line, column: position.character },
                    trigger_character,
                ) is None,
            },
    {
        complete_at_point(
            self.source.as_str(),
            &self.tree,
            &self.identifiers,
            position,
            trigger_character,
        )
    }

    /// Rename at `position` against this session's state.
    pub fn rename_at(&self, position: Position, new_name: String, file_location: String) -> (r:
        Option<WorkspaceEdit>)
        requires
            self.wf(),
        ensures
            match r {
                Option::Some(w) => rename_spec(
                    self.tree,
                    self.source@,
                    Point { row: position.line, column: position.character },
                    new_name@,
                    file_location@,
                ) == Option::Some(workspace_edit_view(w)),
                Option::None => rename_spec(
                    self.tree,
                    self.source@,
                    Point { row: position.line, column: position.character },
                    new_name@,
                    file_location@,
                ) is None,
            },
    {
        rename(self.source.as_str(), &self.tree, position, new_name, file_location)
    }
}

} // verus!
