use dbml_language_server::{
    rename, replace_rule_with_pattern, FieldLabel, Node, NodeKind, Point, Position, SyntaxTree,
};

fn n(
    kind: NodeKind,
    named: bool,
    label: Option<FieldLabel>,
    start: (usize, usize),
    end: (usize, usize),
    parent: Option<usize>,
    children: &[usize],
) -> Node {
    Node {
        kind,
        named,
        label,
        start: Point { row: start.0, column: start.1 },
        end: Point { row: end.0, column: end.1 },
        parent,
        children: children.to_vec(),
    }
}

/// `Table users {\n  id int\n}\nRef: users.id < posts.user_id\n`
fn schema_source() -> String {
    "Table users {\n  id int\n}\nRef: users.id < posts.user_id\n".to_string()
}

fn schema_tree() -> SyntaxTree {
    SyntaxTree {
        nodes: vec![
            n(NodeKind::ProjectFile, true, None, (0, 0), (4, 0), None, &[1, 8]),
            n(NodeKind::TableDefinition, true, None, (0, 0), (2, 1), Some(0), &[2, 3, 4]),
            n(NodeKind::Other, false, None, (0, 0), (0, 5), Some(1), &[]),
            n(NodeKind::Identifier, true, Some(FieldLabel::Name), (0, 6), (0, 11), Some(1), &[]),
            n(NodeKind::FieldDeclarationList, true, None, (0, 12), (2, 1), Some(1), &[5]),
            n(NodeKind::FieldDeclaration, true, None, (1, 2), (1, 8), Some(4), &[6, 7]),
            n(NodeKind::Identifier, true, Some(FieldLabel::Name), (1, 2), (1, 4), Some(5), &[]),
            n(NodeKind::Identifier, true, Some(FieldLabel::TypeRef), (1, 5), (1, 8), Some(5), &[]),
            n(NodeKind::Other, true, None, (3, 0), (3, 29), Some(0), &[9, 10, 11, 15, 16]),
            n(NodeKind::Other, false, None, (3, 0), (3, 3), Some(8), &[]),
            n(NodeKind::Other, false, None, (3, 3), (3, 4), Some(8), &[]),
            n(NodeKind::TableField, true, None, (3, 5), (3, 13), Some(8), &[12, 13, 14]),
            n(NodeKind::Identifier, true, Some(FieldLabel::TableRef), (3, 5), (3, 10), Some(11), &[]),
            n(NodeKind::Other, false, None, (3, 10), (3, 11), Some(11), &[]),
            n(NodeKind::Identifier, true, Some(FieldLabel::FieldRef), (3, 11), (3, 13), Some(11), &[]),
            n(NodeKind::CardinalityOp, true, None, (3, 14), (3, 15), Some(8), &[]),
            n(NodeKind::TableField, true, None, (3, 16), (3, 29), Some(8), &[17, 18, 19]),
            n(NodeKind::Identifier, true, Some(FieldLabel::TableRef), (3, 16), (3, 21), Some(16), &[]),
            n(NodeKind::Other, false, None, (3, 21), (3, 22), Some(16), &[]),
            n(NodeKind::Identifier, true, Some(FieldLabel::FieldRef), (3, 22), (3, 29), Some(16), &[]),
        ],
    }
}

fn edit_ranges(edits: &[dbml_language_server::TextEdit]) -> Vec<((usize, usize), (usize, usize))> {
    edits
        .iter()
        .map(|e| {
            (
                (e.range.start.line, e.range.start.character),
                (e.range.end.line, e.range.end.character),
            )
        })
        .collect()
}

#[test]
fn rename_on_whitespace_is_refused() {
    let source = schema_source();
    let tree = schema_tree();
    // row 2 holds only the closing brace; column 5 is past it, in whitespace
    let got = rename(
        &source,
        &tree,
        Position { line: 2, character: 5 },
        "accounts".to_string(),
        "file:///schema.dbml".to_string(),
    );
    assert!(got.is_none());
}

#[test]
fn rename_on_keyword_token_is_refused() {
    let source = schema_source();
    let tree = schema_tree();
    // inside the `Table` keyword token, which is not an identifier
    let got = rename(
        &source,
        &tree,
        Position { line: 0, character: 3 },
        "accounts".to_string(),
        "file:///schema.dbml".to_string(),
    );
    assert!(got.is_none());
}

#[test]
fn table_rename_covers_definition_and_references_only() {
    let source = schema_source();
    let tree = schema_tree();
    let got = rename(
        &source,
        &tree,
        Position { line: 0, character: 8 },
        "accounts".to_string(),
        "file:///schema.dbml".to_string(),
    )
    .unwrap();
    assert_eq!(got.document, "file:///schema.dbml");
    // the definition name and the left-hand relationship reference; never
    // the field declaration, the field reference, or the other table
    assert_eq!(edit_ranges(&got.changes), vec![((0, 6), (0, 11)), ((3, 5), (3, 10))]);
    for edit in &got.changes {
        assert_eq!(edit.new_text, "accounts");
    }
}

#[test]
fn table_rename_from_relationship_reference_matches_definition_rename() {
    let source = schema_source();
    let tree = schema_tree();
    let got = rename(
        &source,
        &tree,
        Position { line: 3, character: 7 },
        "accounts".to_string(),
        "file:///schema.dbml".to_string(),
    )
    .unwrap();
    assert_eq!(edit_ranges(&got.changes), vec![((0, 6), (0, 11)), ((3, 5), (3, 10))]);
}

#[test]
fn field_rename_covers_declaration_and_field_references() {
    let source = schema_source();
    let tree = schema_tree();
    let got = rename(
        &source,
        &tree,
        Position { line: 1, character: 3 },
        "key".to_string(),
        "file:///schema.dbml".to_string(),
    )
    .unwrap();
    // the declaration inside `users` and the right-hand reference; never
    // the table name
    assert_eq!(edit_ranges(&got.changes), vec![((1, 2), (1, 4)), ((3, 11), (3, 13))]);
}

#[test]
fn enum_rename_covers_type_references() {
    // `Enum status {\n  active\n}\nTable t {\n  s status\n}\n`
    let source = "Enum status {\n  active\n}\nTable t {\n  s status\n}\n".to_string();
    let tree = SyntaxTree {
        nodes: vec![
            n(NodeKind::ProjectFile, true, None, (0, 0), (6, 0), None, &[1, 4]),
            n(NodeKind::EnumDefinition, true, None, (0, 0), (2, 1), Some(0), &[2, 3]),
            n(NodeKind::Other, false, None, (0, 0), (0, 4), Some(1), &[]),
            n(NodeKind::Identifier, true, Some(FieldLabel::Name), (0, 5), (0, 11), Some(1), &[]),
            n(NodeKind::TableDefinition, true, None, (3, 0), (5, 1), Some(0), &[5, 6, 7]),
            n(NodeKind::Other, false, None, (3, 0), (3, 5), Some(4), &[]),
            n(NodeKind::Identifier, true, Some(FieldLabel::Name), (3, 6), (3, 7), Some(4), &[]),
            n(NodeKind::FieldDeclarationList, true, None, (3, 8), (5, 1), Some(4), &[8]),
            n(NodeKind::FieldDeclaration, true, None, (4, 2), (4, 10), Some(7), &[9, 10]),
            n(NodeKind::Identifier, true, Some(FieldLabel::Name), (4, 2), (4, 3), Some(8), &[]),
            n(NodeKind::Identifier, true, Some(FieldLabel::TypeRef), (4, 4), (4, 10), Some(8), &[]),
        ],
    };
    // cursor on the type reference `status` in the field declaration
    let got = rename(
        &source,
        &tree,
        Position { line: 4, character: 6 },
        "state".to_string(),
        "file:///schema.dbml".to_string(),
    )
    .unwrap();
    assert_eq!(edit_ranges(&got.changes), vec![((4, 4), (4, 10))]);

    // cursor on the enum definition's name classifies as the enum role too
    let got = rename(
        &source,
        &tree,
        Position { line: 0, character: 8 },
        "state".to_string(),
        "file:///schema.dbml".to_string(),
    )
    .unwrap();
    assert_eq!(edit_ranges(&got.changes), vec![((4, 4), (4, 10))]);
}

#[test]
fn placeholders_are_replaced_with_the_pattern() {
    let rules: &[&str] = &[
        "((table_definition name: (identifier) @table_name) (#eq? @table_name \"{}\"))",
        "a {} b {}",
        "none here",
    ];
    let got = replace_rule_with_pattern(rules, "users");
    assert_eq!(got, vec![
        "((table_definition name: (identifier) @table_name) (#eq? @table_name \"users\"))"
            .to_string(),
        "a users b users".to_string(),
        "none here".to_string(),
    ]);
}
