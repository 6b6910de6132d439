use dbml_language_server::{
    find_location_on_ast, CursorLocation, FieldLabel, Node, NodeKind, Point, Position, SyntaxTree,
};

fn n(
    kind: NodeKind,
    named: bool,
    label: Option<FieldLabel>,
    start: (usize, usize),
    end: (usize, usize),
    parent: Option<usize>,
    children: &[usize],
) -> Node {
    Node {
        kind,
        named,
        label,
        start: Point { row: start.0, column: start.1 },
        end: Point { row: end.0, column: end.1 },
        parent,
        children: children.to_vec(),
    }
}

/// `Table users {\n  id int [pk]\n}\n`
fn users_source() -> String {
    "Table users {\n  id int [pk]\n}\n".to_string()
}

fn users_tree() -> SyntaxTree {
    SyntaxTree {
        nodes: vec![
            n(NodeKind::ProjectFile, true, None, (0, 0), (3, 0), None, &[1]),
            n(NodeKind::TableDefinition, true, None, (0, 0), (2, 1), Some(0), &[2, 3, 4]),
            n(NodeKind::Other, false, None, (0, 0), (0, 5), Some(1), &[]),
            n(NodeKind::Identifier, true, Some(FieldLabel::Name), (0, 6), (0, 11), Some(1), &[]),
            n(NodeKind::FieldDeclarationList, true, None, (0, 12), (2, 1), Some(1), &[5]),
            n(NodeKind::FieldDeclaration, true, None, (1, 2), (1, 13), Some(4), &[6, 7, 8]),
            n(NodeKind::Identifier, true, Some(FieldLabel::Name), (1, 2), (1, 4), Some(5), &[]),
            n(NodeKind::Identifier, true, Some(FieldLabel::TypeRef), (1, 5), (1, 8), Some(5), &[]),
            n(NodeKind::FieldAttributeList, true, None, (1, 9), (1, 13), Some(5), &[9]),
            n(NodeKind::Identifier, true, None, (1, 10), (1, 12), Some(8), &[]),
        ],
    }
}

/// `Table users {\n  id int\n}\nusers.id`
fn relationship_source() -> String {
    "Table users {\n  id int\n}\nusers.id".to_string()
}

fn relationship_tree() -> SyntaxTree {
    SyntaxTree {
        nodes: vec![
            n(NodeKind::ProjectFile, true, None, (0, 0), (4, 0), None, &[1, 8, 9, 10]),
            n(NodeKind::TableDefinition, true, None, (0, 0), (2, 1), Some(0), &[2, 3, 4]),
            n(NodeKind::Other, false, None, (0, 0), (0, 5), Some(1), &[]),
            n(NodeKind::Identifier, true, Some(FieldLabel::Name), (0, 6), (0, 11), Some(1), &[]),
            n(NodeKind::FieldDeclarationList, true, None, (0, 12), (2, 1), Some(1), &[5]),
            n(NodeKind::FieldDeclaration, true, None, (1, 2), (1, 8), Some(4), &[6, 7]),
            n(NodeKind::Identifier, true, Some(FieldLabel::Name), (1, 2), (1, 4), Some(5), &[]),
            n(NodeKind::Identifier, true, Some(FieldLabel::TypeRef), (1, 5), (1, 8), Some(5), &[]),
            n(NodeKind::Identifier, true, None, (3, 0), (3, 5), Some(0), &[]),
            n(NodeKind::Other, false, None, (3, 5), (3, 6), Some(0), &[]),
            n(NodeKind::Identifier, true, None, (3, 6), (3, 8), Some(0), &[]),
        ],
    }
}

#[test]
fn cursor_inside_field_list_is_field() {
    let source = users_source();
    let tree = users_tree();
    let loc = find_location_on_ast(&source, &tree, Position { line: 1, character: 2 });
    assert_eq!(loc, CursorLocation::Field);
}

#[test]
fn cursor_inside_attribute_list_is_field_attribute_list() {
    let source = users_source();
    let tree = users_tree();
    let loc = find_location_on_ast(&source, &tree, Position { line: 1, character: 10 });
    assert_eq!(loc, CursorLocation::FieldAttributeList);
}

#[test]
fn cursor_after_dot_is_relationship_field_ref() {
    let source = relationship_source();
    let tree = relationship_tree();
    let loc = find_location_on_ast(&source, &tree, Position { line: 3, character: 6 });
    assert_eq!(loc, CursorLocation::RelationshipFieldRef("users".to_string()));
}

#[test]
fn cursor_past_document_is_unknown() {
    let source = users_source();
    let tree = users_tree();
    let loc = find_location_on_ast(&source, &tree, Position { line: 5, character: 0 });
    assert_eq!(loc, CursorLocation::Unknown);
}

#[test]
fn cursor_on_table_name_is_field() {
    let source = users_source();
    let tree = users_tree();
    // the name identifier sits directly under the table definition
    let loc = find_location_on_ast(&source, &tree, Position { line: 0, character: 8 });
    assert_eq!(loc, CursorLocation::Field);
}

#[test]
fn cursor_on_field_type_is_unknown() {
    let source = users_source();
    let tree = users_tree();
    // the type identifier is neither the root nor field-list granularity
    let loc = find_location_on_ast(&source, &tree, Position { line: 1, character: 6 });
    assert_eq!(loc, CursorLocation::Unknown);
}

#[test]
fn probe_stops_at_column_zero() {
    let source = relationship_source();
    let tree = relationship_tree();
    // row 3 column 0: nothing lies to the cursor's left
    let loc = find_location_on_ast(&source, &tree, Position { line: 3, character: 0 });
    assert_eq!(loc, CursorLocation::Unknown);
}

#[test]
fn point_helpers_move_within_the_grid() {
    let p = Point { row: 3, column: 7 };
    assert_eq!(p.column_start(), Point { row: 3, column: 0 });
    assert_eq!(p.line_above(), Point { row: 2, column: 7 });
    let q = Point::from(Position { line: 4, character: 9 });
    assert_eq!(q, Point { row: 4, column: 9 });
}
