//! Cursor classification: turning a raw (row, column) edit point into a
//! semantic location tag.
//!
//! The classification is a best-effort heuristic over possibly invalid
//! input: a direct hit against the tree first, then — when the cursor sits
//! in a region the parser left at root or field-list granularity — a
//! leftward probe along the cursor's row that recovers the token the user
//! is mid-typing. Every lookup that finds nothing yields `Unknown` rather
//! than failing.

use vstd::prelude::*;

use crate::tree::{NodeKind, SyntaxTree};
use crate::wrappers::{Point, Position};

verus! {

/// Semantic classification of an edit point. Exactly one value results
/// from each classification call.
#[derive(Clone, Debug, PartialEq, Eq)]
pub enum CursorLocation {
    Unknown,
    Table,
    /// Inside a table's field list, at field-declaration granularity.
    Field,
    FieldAttribute,
    /// Inside a field's attribute list.
    FieldAttributeList,
    Enum,
    /// On the table side of a relationship reference.
    RelationshipTableRef,
    /// On the field side of a relationship reference; carries the text of
    /// the table name already typed before the dot.
    RelationshipFieldRef(String),
}

/// Mathematical image of a [`CursorLocation`]: the same tag, with text
/// payloads as character sequences.
pub enum CursorLocationV {
    Unknown,
    Table,
    Field,
    FieldAttribute,
    FieldAttributeList,
    Enum,
    RelationshipTableRef,
    RelationshipFieldRef(Seq<char>),
}

pub open spec fn loc_view(l: CursorLocation) -> CursorLocationV {
    match l {
        CursorLocation::Unknown => CursorLocationV::Unknown,
        CursorLocation::Table => CursorLocationV::Table,
        CursorLocation::Field => CursorLocationV::Field,
        CursorLocation::FieldAttribute => CursorLocationV::FieldAttribute,
        CursorLocation::FieldAttributeList => CursorLocationV::FieldAttributeList,
        CursorLocation::Enum => CursorLocationV::Enum,
        CursorLocation::RelationshipTableRef => CursorLocationV::RelationshipTableRef,
        CursorLocation::RelationshipFieldRef(s) => CursorLocationV::RelationshipFieldRef(s@),
    }
}

/// Result of the leftward probe from `p`: the deepest node found at the
/// first column, moving leftward along `p`'s row, where the containing
/// node is not the document root; -1 when the probe reaches column zero
/// without finding one. The query at column zero itself never counts:
/// reaching it means the row holds nothing to the cursor's left.
pub open spec fn probe_from(t: SyntaxTree, p: Point) -> int
    decreases p.column
        when t.wf()
{
    let n = t.descend_from(0, p, false);
    if p.column == 0 {
        -1
    } else if t.node(n).kind != NodeKind::ProjectFile {
        n
    } else {
        probe_from(t, Point { row: p.row, column: (p.column - 1) as usize })
    }
}

/// Classification of the token node `n` that the probe found: a colon or a
/// child of a cardinality operator reads as the table side of a
/// relationship; a dot reads as the field side, named after the token just
/// before the dot; anything else is unknown.
pub open spec fn classify_token(t: SyntaxTree, src: Seq<char>, n: int) -> CursorLocationV {
    if t.text_of(src, n) == ":"@ || (t.parent_of(n) >= 0 && t.node(t.parent_of(n)).kind
        == NodeKind::CardinalityOp) {
        CursorLocationV::RelationshipTableRef
    } else if t.text_of(src, n) == "."@ {
        let s = t.prev_sibling_of(n);
        if s >= 0 {
            CursorLocationV::RelationshipFieldRef(t.text_of(src, s))
        } else {
            CursorLocationV::Unknown
        }
    } else {
        CursorLocationV::Unknown
    }
}

/// The whole classification. A direct hit at attribute-list or
/// field-declaration granularity answers at once — the attribute-list
/// check deliberately precedes the field check; a hit that is neither the
/// root nor a field list is outside any supported context; otherwise the
/// leftward probe recovers the token being typed.
pub open spec fn locate_spec(t: SyntaxTree, src: Seq<char>, p: Point) -> CursorLocationV {
    let hit = t.descend_from(0, p, true);
    if t.node(hit).kind == NodeKind::FieldAttributeList {
        CursorLocationV::FieldAttributeList
    } else if t.parent_of(hit) >= 0 && (t.node(t.parent_of(hit)).kind
        == NodeKind::FieldDeclarationList || t.node(t.parent_of(hit)).kind
        == NodeKind::TableDefinition) {
        CursorLocationV::Field
    } else if t.node(hit).kind != NodeKind::ProjectFile && t.node(hit).kind
        != NodeKind::FieldDeclarationList {
        CursorLocationV::Unknown
    } else {
        let n = probe_from(t, p);
        if n < 0 {
            CursorLocationV::Unknown
        } else {
            classify_token(t, src, n)
        }
    }
}

/// When the node containing the cursor is the topmost one, naively
/// searches for another node by moving the query point left one column at
/// a time, never crossing a line boundary.
pub fn search_valid_node(tree: &SyntaxTree, current_point: Point) -> (r: Option<usize>)
    requires
        tree.wf(),
    ensures
        match r {
            Option::Some(n) => probe_from(*tree, current_point) == n as int && n
                < tree.nodes@.len(),
            Option::None => probe_from(*tree, current_point) == -1,
        },
{
    let mut col = current_point.column;
    loop
        invariant
            tree.wf(),
            col <= current_point.column,
            probe_from(*tree, current_point) == probe_from(
                *tree,
                Point { row: current_point.row, column: col },
            ),
        decreases col,
    {
        let q = Point { row: current_point.row, column: col };
        let n = tree.descendant_at(q, false);
        if col == 0 {
            return Option::None;
        }
        if !matches!(tree.nodes[n].kind, NodeKind::ProjectFile) {
            return Option::Some(n);
        }
        col = col - 1;
    }
}

/// Goes up from `node` until an ancestor of kind `kind` is found, then
/// reads the text of that ancestor's child held under `label`.
pub fn node_parent_identifier(
    source: &str,
    tree: &SyntaxTree,
    node: usize,
    kind: NodeKind,
    label: crate::tree::FieldLabel,
) -> (r: Option<String>)
    requires
        tree.wf(),
        node < tree.nodes@.len(),
    ensures
        match r {
            Option::Some(s) => parent_identifier_spec(*tree, source@, node as int, kind, label)
                == Option::Some(s@),
            Option::None => parent_identifier_spec(*tree, source@, node as int, kind, label)
                is None,
        },
{
    match tree.find_ancestor_of_kind(node, kind) {
        Option::None => Option::None,
        Option::Some(a) => {
            match tree.child_by_label(a, label) {
                Option::None => Option::None,
                Option::Some(c) => Option::Some(tree.node_text(source, c)),
            }
        },
    }
}

/// Text of the `label` child of the nearest `kind` ancestor of `i`, when
/// both exist.
pub open spec fn parent_identifier_spec(
    t: SyntaxTree,
    src: Seq<char>,
    i: int,
    kind: NodeKind,
    label: crate::tree::FieldLabel,
) -> Option<Seq<char>> {
    let a = t.ancestor_of_kind(i, kind);
    if a < 0 {
        Option::None
    } else {
        let c = t.child_with_label(a, label);
        if c < 0 {
            Option::None
        } else {
            Option::Some(t.text_of(src, c))
        }
    }
}

/// Classifies the edit point against the tree.
pub fn find_location_on_ast(source: &str, tree: &SyntaxTree, edit_position: Position) -> (r:
    CursorLocation)
    requires
        tree.wf(),
    ensures
        loc_view(r) == locate_spec(
            *tree,
            source@,
            Point { row: edit_position.line, column: edit_position.character },
        ),
{
    let current_pos = Point::from(edit_position);
    let hit = tree.descendant_at(current_pos, true);
    if matches!(tree.nodes[hit].kind, NodeKind::FieldAttributeList) {
        return CursorLocation::FieldAttributeList;
    }
    match tree.nodes[hit].parent {
        Option::Some(par) => {
            proof {
                if hit as int >= 1 {
                    assert(0 <= tree.parent_of(hit as int) < hit as int);
                }
            }
            if matches!(tree.nodes[par].kind, NodeKind::FieldDeclarationList) || matches!(
                tree.nodes[par].kind,
                NodeKind::TableDefinition,
            ) {
                return CursorLocation::Field;
            }
        },
        Option::None => {},
    }
    if !matches!(tree.nodes[hit].kind, NodeKind::ProjectFile) && !matches!(
        tree.nodes[hit].kind,
        NodeKind::FieldDeclarationList,
    ) {
        return CursorLocation::Unknown;
    }
    match search_valid_node(tree, current_pos) {
        Option::None => CursorLocation::Unknown,
        Option::Some(n) => {
            let txt = tree.node_text(source, n);
            let parent_is_cardinality = match tree.nodes[n].parent {
                Option::Some(pp) => {
                    proof {
                        if n as int >= 1 {
                            assert(0 <= tree.parent_of(n as int) < n as int);
                        }
                    }
                    matches!(tree.nodes[pp].kind, NodeKind::CardinalityOp)
                },
                Option::None => false,
            };
            if txt == String::from_str(":") || parent_is_cardinality {
                return CursorLocation::RelationshipTableRef;
            }
            if txt == String::from_str(".") {
                match tree.prev_sibling(n) {
                    Option::Some(s) => {
                        return CursorLocation::RelationshipFieldRef(
                            tree.node_text(source, s),
                        );
                    },
                    Option::None => {
                        return CursorLocation::Unknown;
                    },
                }
            }
            CursorLocation::Unknown
        },
    }
}

} // verus!
