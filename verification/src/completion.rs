//! Completion candidates for an edit point.
//!
//! An ordered decision table over the cursor's classification, first match
//! wins: a relationship's table side offers every index key; its field
//! side offers the named table's fields; a field declaration offers enum
//! names and the primitive type keywords; the attribute-list opener as
//! trigger character, or a cursor inside an attribute list, offers the
//! fixed attribute keywords; anything else offers nothing. The result is
//! an unranked candidate set — the caller filters and sorts.

use vstd::prelude::*;

use crate::index::{FieldInfoV, IdentifiersMap};
use crate::navigation::{find_location_on_ast, locate_spec, CursorLocation, CursorLocationV};
use crate::tree::SyntaxTree;
use crate::wrappers::{Point, Position};

verus! {

/// The fixed primitive type keywords offered inside a field declaration.
pub open spec fn primitive_types() -> Seq<Seq<char>> {
    seq!["int"@, "float"@, "text"@, "varchar"@]
}

/// The fixed attribute keywords offered inside a field attribute list.
pub open spec fn field_attributes() -> Seq<Seq<char>> {
    seq!["not null"@, "null"@, "pk"@, "unique"@, "increment"@, "ref:"@]
}

/// The candidate set owed for a cursor at `p` with trigger `trigger`:
/// the decision table of the completion engine, over the cursor
/// classification and the identifier index.
pub open spec fn complete_spec(
    t: SyntaxTree,
    src: Seq<char>,
    identifiers: IdentifiersMap,
    p: Point,
    trigger: Option<char>,
) -> Option<Seq<Seq<char>>> {
    match locate_spec(t, src, p) {
        CursorLocationV::RelationshipTableRef => Option::Some(identifiers.keys_seq()),
        CursorLocationV::RelationshipFieldRef(tbl) => if identifiers.tables_view().contains_key(
            tbl,
        ) {
            Option::Some(
                identifiers.tables_view()[tbl].map_values(|f: FieldInfoV| f.name),
            )
        } else {
            Option::None
        },
        CursorLocationV::Field => Option::Some(identifiers.enums_view() + primitive_types()),
        loc => if trigger == Option::Some('[') || loc is FieldAttributeList {
            Option::Some(field_attributes())
        } else {
            Option::None
        },
    }
}

/// The attribute-list opener as a trigger yields the fixed attribute
/// keyword set at every cursor position that none of the three earlier
/// decision-table branches claims, whatever node the cursor sits in.
pub proof fn lemma_trigger_yields_attributes(
    t: SyntaxTree,
    src: Seq<char>,
    identifiers: IdentifiersMap,
    p: Point,
    trigger: Option<char>,
)
    requires
        trigger == Option::Some('['),
        !(locate_spec(t, src, p) is RelationshipTableRef),
        !(locate_spec(t, src, p) is RelationshipFieldRef),
        !(locate_spec(t, src, p) is Field),
    ensures
        complete_spec(t, src, identifiers, p, trigger) == Option::Some(field_attributes()),
{
}

/// The fixed attribute keywords.
fn field_attributes_vec() -> (r: Vec<String>)
    ensures
        r@.map_values(|s: String| s@) =~= field_attributes(),
{
    let mut v: Vec<String> = Vec::new();
    v.push(String::from_str("not null"));
    v.push(String::from_str("null"));
    v.push(String::from_str("pk"));
    v.push(String::from_str("unique"));
    v.push(String::from_str("increment"));
    v.push(String::from_str("ref:"));
    v
}

/// Computes the completion candidates for the edit point.
pub fn complete_at_point(
    source: &str,
    tree: &SyntaxTree,
    identifiers: &IdentifiersMap,
    edit_position: Position,
    trigger_character: Option<char>,
) -> (r: Option<Vec<String>>)
    requires
        tree.wf(),
        identifiers.wf(),
    ensures
        match r {
            Option::Some(v) => complete_spec(
                *tree,
                source@,
                *identifiers,
                Point { row: edit_position.line, column: edit_position.character },
                trigger_character,
            ) == Option::Some(v@.map_values(|s: String| s@)),
            Option::None => complete_spec(
                *tree,
                source@,
                *identifiers,
                Point { row: edit_position.line, column: edit_position.character },
                trigger_character,
            ) is None,
        },
{
    let valid_position = find_location_on_ast(source, tree, edit_position);

    let is_trigger_opener = match trigger_character {
        Option::Some(c) => c == '[',
        Option::None => false,
    };

    match valid_position {
        CursorLocation::RelationshipTableRef => identifiers.tables(),
        CursorLocation::RelationshipFieldRef(table_name) => {
            match identifiers.fields_of_table(table_name.as_str()) {
                Option::Some(fields) => {
                    let n = fields.len();
                    let mut names: Vec<String> = Vec::new();
                    let mut j: usize = 0;
                    while j < n
                        invariant
                            n == fields@.len(),
                            j <= n,
                            names@.len() == j,
                            forall|a: int|
                                0 <= a < j ==> names@[a]@ == fields@[a].text_name@,
                        decreases n - j,
                    {
                        names.push(fields[j].text_name.clone());
                        j = j + 1;
                    }
                    proof {
                        assert(names@.map_values(|s: String| s@) =~= crate::index::fields_view(
                            fields@,
                        ).map_values(|f: FieldInfoV| f.name));
                    }
                    Option::Some(names)
                },
                Option::None => Option::None,
            }
        },
        CursorLocation::Field => {
            let n = identifiers.enums_without_discriminants.len();
            let mut v: Vec<String> = Vec::new();
            let mut j: usize = 0;
            while j < n
                invariant
                    n == identifiers.enums_without_discriminants@.len(),
                    j <= n,
                    v@.len() == j,
                    forall|a: int|
                        0 <= a < j ==> v@[a]@
                            == identifiers.enums_without_discriminants@[a]@,
                decreases n - j,
            {
                v.push(identifiers.enums_without_discriminants[j].clone());
                j = j + 1;
            }
            v.push(String::from_str("int"));
            v.push(String::from_str("float"));
            v.push(String::from_str("text"));
            v.push(String::from_str("varchar"));
            proof {
                assert(v@.map_values(|s: String| s@) =~= identifiers.enums_view()
                    + primitive_types());
            }
            Option::Some(v)
        },
        other => {
            let in_attribute_list = matches!(other, CursorLocation::FieldAttributeList);
            if is_trigger_opener || in_attribute_list {
                Option::Some(field_attributes_vec())
            } else {
                Option::None
            }
        },
    }
}

} // verus!
