use dbml_language_server::{
    DocumentSession, FieldLabel, Node, NodeKind, Point, Position, SyntaxTree,
};

fn n(
    kind: NodeKind,
    named: bool,
    label: Option<FieldLabel>,
    start: (usize, usize),
    end: (usize, usize),
    parent: Option<usize>,
    children: &[usize],
) -> Node {
    Node {
        kind,
        named,
        label,
        start: Point { row: start.0, column: start.1 },
        end: Point { row: end.0, column: end.1 },
        parent,
        children: children.to_vec(),
    }
}

/// `Table users {\n  id int\n}\n`
fn users_source() -> String {
    "Table users {\n  id int\n}\n".to_string()
}

fn users_tree() -> SyntaxTree {
    SyntaxTree {
        nodes: vec![
            n(NodeKind::ProjectFile, true, None, (0, 0), (3, 0), None, &[1]),
            n(NodeKind::TableDefinition, true, None, (0, 0), (2, 1), Some(0), &[2, 3, 4]),
            n(NodeKind::Other, false, None, (0, 0), (0, 5), Some(1), &[]),
            n(NodeKind::Identifier, true, Some(FieldLabel::Name), (0, 6), (0, 11), Some(1), &[]),
            n(NodeKind::FieldDeclarationList, true, None, (0, 12), (2, 1), Some(1), &[5]),
            n(NodeKind::FieldDeclaration, true, None, (1, 2), (1, 8), Some(4), &[6, 7]),
            n(NodeKind::Identifier, true, Some(FieldLabel::Name), (1, 2), (1, 4), Some(5), &[]),
            n(NodeKind::Identifier, true, Some(FieldLabel::TypeRef), (1, 5), (1, 8), Some(5), &[]),
        ],
    }
}

/// `Table posts {\n  title text\n}\n`
fn posts_source() -> String {
    "Table posts {\n  title text\n}\n".to_string()
}

fn posts_tree() -> SyntaxTree {
    SyntaxTree {
        nodes: vec![
            n(NodeKind::ProjectFile, true, None, (0, 0), (3, 0), None, &[1]),
            n(NodeKind::TableDefinition, true, None, (0, 0), (2, 1), Some(0), &[2, 3, 4]),
            n(NodeKind::Other, false, None, (0, 0), (0, 5), Some(1), &[]),
            n(NodeKind::Identifier, true, Some(FieldLabel::Name), (0, 6), (0, 11), Some(1), &[]),
            n(NodeKind::FieldDeclarationList, true, None, (0, 12), (2, 1), Some(1), &[5]),
            n(NodeKind::FieldDeclaration, true, None, (1, 2), (1, 12), Some(4), &[6, 7]),
            n(NodeKind::Identifier, true, Some(FieldLabel::Name), (1, 2), (1, 7), Some(5), &[]),
            n(NodeKind::Identifier, true, Some(FieldLabel::TypeRef), (1, 8), (1, 12), Some(5), &[]),
        ],
    }
}

#[test]
fn well_formedness_check_accepts_and_refuses() {
    assert!(users_tree().is_well_formed());
    // an empty arena has no root
    assert!(!SyntaxTree { nodes: vec![] }.is_well_formed());
    // a child list naming a node whose parent link disagrees
    let mut broken = users_tree();
    broken.nodes[3].parent = Some(0);
    assert!(!broken.is_well_formed());
}

#[test]
fn open_builds_the_index() {
    let session = DocumentSession::on_open(users_source(), users_tree());
    assert_eq!(session.identifiers.tables().unwrap(), vec!["users".to_string()]);
}

#[test]
fn change_replaces_source_tree_and_index() {
    let mut session = DocumentSession::on_open(users_source(), users_tree());
    session.on_change(posts_source(), posts_tree());
    assert_eq!(session.source, posts_source());
    assert_eq!(session.identifiers.tables().unwrap(), vec!["posts".to_string()]);
    let fields = session.identifiers.fields_of_table("posts").unwrap();
    assert_eq!(fields[0].text_name, "title");
}

#[test]
fn session_completion_and_rename_work_against_current_state() {
    let session = DocumentSession::on_open(users_source(), users_tree());
    let completions = session
        .complete(Position { line: 1, character: 2 }, None)
        .unwrap();
    assert_eq!(completions, vec![
        "int".to_string(),
        "float".to_string(),
        "text".to_string(),
        "varchar".to_string(),
    ]);
    let edit = session
        .rename_at(
            Position { line: 0, character: 8 },
            "accounts".to_string(),
            "file:///schema.dbml".to_string(),
        )
        .unwrap();
    assert_eq!(edit.document, "file:///schema.dbml");
    assert_eq!(edit.changes.len(), 1);
    assert_eq!(edit.changes[0].new_text, "accounts");
    // refusal on whitespace produces no edit set
    assert!(session
        .rename_at(
            Position { line: 2, character: 9 },
            "x".to_string(),
            "file:///schema.dbml".to_string(),
        )
        .is_none());
}
