use dbml_language_server::{
    populate_identifiers, FieldLabel, Node, NodeKind, Point, Range, SyntaxTree,
};

fn n(
    kind: NodeKind,
    named: bool,
    label: Option<FieldLabel>,
    start: (usize, usize),
    end: (usize, usize),
    parent: Option<usize>,
    children: &[usize],
) -> Node {
    Node {
        kind,
        named,
        label,
        start: Point { row: start.0, column: start.1 },
        end: Point { row: end.0, column: end.1 },
        parent,
        children: children.to_vec(),
    }
}

/// `Table users as u {\n  id int\n  name text\n}\n`
fn aliased_source() -> String {
    "Table users as u {\n  id int\n  name text\n}\n".to_string()
}

fn aliased_tree() -> SyntaxTree {
    SyntaxTree {
        nodes: vec![
            n(NodeKind::ProjectFile, true, None, (0, 0), (4, 0), None, &[1]),
            n(NodeKind::TableDefinition, true, None, (0, 0), (3, 1), Some(0), &[2, 3, 4, 5, 6]),
            n(NodeKind::Other, false, None, (0, 0), (0, 5), Some(1), &[]),
            n(NodeKind::Identifier, true, Some(FieldLabel::Name), (0, 6), (0, 11), Some(1), &[]),
            n(NodeKind::Other, false, None, (0, 12), (0, 14), Some(1), &[]),
            n(NodeKind::Identifier, true, Some(FieldLabel::Alias), (0, 15), (0, 16), Some(1), &[]),
            n(NodeKind::FieldDeclarationList, true, None, (0, 17), (3, 1), Some(1), &[7, 10]),
            n(NodeKind::FieldDeclaration, true, None, (1, 2), (1, 8), Some(6), &[8, 9]),
            n(NodeKind::Identifier, true, Some(FieldLabel::Name), (1, 2), (1, 4), Some(7), &[]),
            n(NodeKind::Identifier, true, Some(FieldLabel::TypeRef), (1, 5), (1, 8), Some(7), &[]),
            n(NodeKind::FieldDeclaration, true, None, (2, 2), (2, 11), Some(6), &[11, 12]),
            n(NodeKind::Identifier, true, Some(FieldLabel::Name), (2, 2), (2, 6), Some(10), &[]),
            n(NodeKind::Identifier, true, Some(FieldLabel::TypeRef), (2, 7), (2, 11), Some(10), &[]),
        ],
    }
}

/// `Enum status {\n  active\n}\nTable t {\n  s status\n}\n`
fn enum_source() -> String {
    "Enum status {\n  active\n}\nTable t {\n  s status\n}\n".to_string()
}

fn enum_tree() -> SyntaxTree {
    SyntaxTree {
        nodes: vec![
            n(NodeKind::ProjectFile, true, None, (0, 0), (6, 0), None, &[1, 4]),
            n(NodeKind::EnumDefinition, true, None, (0, 0), (2, 1), Some(0), &[2, 3]),
            n(NodeKind::Other, false, None, (0, 0), (0, 4), Some(1), &[]),
            n(NodeKind::Identifier, true, Some(FieldLabel::Name), (0, 5), (0, 11), Some(1), &[]),
            n(NodeKind::TableDefinition, true, None, (3, 0), (5, 1), Some(0), &[5, 6, 7]),
            n(NodeKind::Other, false, None, (3, 0), (3, 5), Some(4), &[]),
            n(NodeKind::Identifier, true, Some(FieldLabel::Name), (3, 6), (3, 7), Some(4), &[]),
            n(NodeKind::FieldDeclarationList, true, None, (3, 8), (5, 1), Some(4), &[8]),
            n(NodeKind::FieldDeclaration, true, None, (4, 2), (4, 10), Some(7), &[9, 10]),
            n(NodeKind::Identifier, true, Some(FieldLabel::Name), (4, 2), (4, 3), Some(8), &[]),
            n(NodeKind::Identifier, true, Some(FieldLabel::TypeRef), (4, 4), (4, 10), Some(8), &[]),
        ],
    }
}

#[test]
fn rebuilding_twice_yields_identical_content() {
    let source = aliased_source();
    let tree = aliased_tree();
    let first = populate_identifiers(&source, &tree);
    let second = populate_identifiers(&source, &tree);
    assert_eq!(first.tables(), second.tables());
    assert_eq!(first.enums_without_discriminants, second.enums_without_discriminants);
    for key in first.tables().unwrap() {
        assert_eq!(first.fields_of_table(&key), second.fields_of_table(&key));
    }
}

#[test]
fn field_ranges_round_trip_to_their_name_text() {
    let source = aliased_source();
    let tree = aliased_tree();
    let identifiers = populate_identifiers(&source, &tree);
    let lines: Vec<&str> = source.split('\n').collect();
    for key in identifiers.tables().unwrap() {
        for field in identifiers.fields_of_table(&key).unwrap() {
            let Range { start, end } = field.range;
            assert_eq!(start.line, end.line);
            let slice = &lines[start.line][start.character..end.character];
            assert_eq!(slice, field.text_name);
        }
    }
}

#[test]
fn alias_and_canonical_name_share_field_content() {
    let source = aliased_source();
    let tree = aliased_tree();
    let identifiers = populate_identifiers(&source, &tree);
    let mut keys = identifiers.tables().unwrap();
    keys.sort();
    assert_eq!(keys, vec!["u".to_string(), "users".to_string()]);
    let canonical = identifiers.fields_of_table("users").unwrap();
    let alias = identifiers.fields_of_table("u").unwrap();
    assert_eq!(canonical, alias);
    let names: Vec<String> = canonical.iter().map(|f| f.text_name.clone()).collect();
    assert_eq!(names, vec!["id".to_string(), "name".to_string()]);
    let types: Vec<String> = canonical.iter().map(|f| f.field_type.clone()).collect();
    assert_eq!(types, vec!["int".to_string(), "text".to_string()]);
}

#[test]
fn enum_names_are_recorded() {
    let source = enum_source();
    let tree = enum_tree();
    let identifiers = populate_identifiers(&source, &tree);
    assert_eq!(identifiers.enums_without_discriminants, vec!["status".to_string()]);
    let fields = identifiers.fields_of_table("t").unwrap();
    assert_eq!(fields.len(), 1);
    assert_eq!(fields[0].text_name, "s");
    assert_eq!(fields[0].field_type, "status");
}

#[test]
fn field_without_enclosing_table_is_dropped() {
    // a recovered field declaration dangling directly under the root
    let source = "id int\n".to_string();
    let tree = SyntaxTree {
        nodes: vec![
            n(NodeKind::ProjectFile, true, None, (0, 0), (1, 0), None, &[1]),
            n(NodeKind::FieldDeclaration, true, None, (0, 0), (0, 6), Some(0), &[2, 3]),
            n(NodeKind::Identifier, true, Some(FieldLabel::Name), (0, 0), (0, 2), Some(1), &[]),
            n(NodeKind::Identifier, true, Some(FieldLabel::TypeRef), (0, 3), (0, 6), Some(1), &[]),
        ],
    };
    let identifiers = populate_identifiers(&source, &tree);
    assert_eq!(identifiers.tables().unwrap().len(), 0);
}

#[test]
fn duplicate_table_declarations_append_under_one_key() {
    // `Table t {\n  a int\n}\nTable t {\n  b int\n}\n`
    let source = "Table t {\n  a int\n}\nTable t {\n  b int\n}\n".to_string();
    let tree = SyntaxTree {
        nodes: vec![
            n(NodeKind::ProjectFile, true, None, (0, 0), (6, 0), None, &[1, 8]),
            n(NodeKind::TableDefinition, true, None, (0, 0), (2, 1), Some(0), &[2, 3, 4]),
            n(NodeKind::Other, false, None, (0, 0), (0, 5), Some(1), &[]),
            n(NodeKind::Identifier, true, Some(FieldLabel::Name), (0, 6), (0, 7), Some(1), &[]),
            n(NodeKind::FieldDeclarationList, true, None, (0, 8), (2, 1), Some(1), &[5]),
            n(NodeKind::FieldDeclaration, true, None, (1, 2), (1, 7), Some(4), &[6, 7]),
            n(NodeKind::Identifier, true, Some(FieldLabel::Name), (1, 2), (1, 3), Some(5), &[]),
            n(NodeKind::Identifier, true, Some(FieldLabel::TypeRef), (1, 4), (1, 7), Some(5), &[]),
            n(NodeKind::TableDefinition, true, None, (3, 0), (5, 1), Some(0), &[9, 10, 11]),
            n(NodeKind::Other, false, None, (3, 0), (3, 5), Some(8), &[]),
            n(NodeKind::Identifier, true, Some(FieldLabel::Name), (3, 6), (3, 7), Some(8), &[]),
            n(NodeKind::FieldDeclarationList, true, None, (3, 8), (5, 1), Some(8), &[12]),
            n(NodeKind::FieldDeclaration, true, None, (4, 2), (4, 7), Some(11), &[13, 14]),
            n(NodeKind::Identifier, true, Some(FieldLabel::Name), (4, 2), (4, 3), Some(12), &[]),
            n(NodeKind::Identifier, true, Some(FieldLabel::TypeRef), (4, 4), (4, 7), Some(12), &[]),
        ],
    };
    let identifiers = populate_identifiers(&source, &tree);
    assert_eq!(identifiers.tables().unwrap(), vec!["t".to_string()]);
    let names: Vec<String> = identifiers
        .fields_of_table("t")
        .unwrap()
        .iter()
        .map(|f| f.text_name.clone())
        .collect();
    assert_eq!(names, vec!["a".to_string(), "b".to_string()]);
}

#[test]
fn fields_of_unknown_table_is_none() {
    let source = aliased_source();
    let tree = aliased_tree();
    let identifiers = populate_identifiers(&source, &tree);
    assert!(identifiers.fields_of_table("posts").is_none());
}
