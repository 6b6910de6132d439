//! The identifier index: table name-or-alias to field list, plus declared
//! enum names.
//!
//! The index is derived wholesale from one source text and one tree — never
//! patched incrementally — so it is always internally self-consistent. Keys
//! are unique; a table declared more than once appends its fields under the
//! one key in declaration order, and a table's canonical name and alias key
//! to the same field list content.

use vstd::prelude::*;

use crate::navigation::node_parent_identifier;
use crate::text::slice_at;
use crate::tree::{FieldLabel, NodeKind, SyntaxTree};
use crate::wrappers::{Point, Position, Range};

verus! {

/// One field of a table: its name text, its declared type text, and the
/// source range of the name token (never of the whole declaration).
#[derive(Debug, PartialEq, Eq)]
pub struct FieldInfo {
    pub text_name: String,
    /// Field's declared type.
    pub field_type: String,
    /// Position range at which the field's name is written.
    pub range: Range,
}

/// Mathematical image of a [`FieldInfo`].
pub struct FieldInfoV {
    pub name: Seq<char>,
    pub typ: Seq<char>,
    pub range: Range,
}

impl View for FieldInfo {
    type V = FieldInfoV;

    open spec fn view(&self) -> FieldInfoV {
        FieldInfoV { name: self.text_name@, typ: self.field_type@, range: self.range }
    }
}

impl Clone for FieldInfo {
    fn clone(&self) -> (r: Self)
        ensures
            r == *self,
    {
        FieldInfo {
            text_name: self.text_name.clone(),
            field_type: self.field_type.clone(),
            range: self.range,
        }
    }
}

/// One key of the index with its field list.
#[derive(Debug)]
pub struct TableFields {
    pub key: String,
    pub fields: Vec<FieldInfo>,
}

/// The identifier index of one document.
#[derive(Debug)]
pub struct IdentifiersMap {
    pub tables_with_fields: Vec<TableFields>,
    pub enums_without_discriminants: Vec<String>,
}

pub open spec fn fields_view(fs: Seq<FieldInfo>) -> Seq<FieldInfoV> {
    fs.map_values(|f: FieldInfo| f@)
}

/// The mapping an entry list denotes: later entries win, though entry keys
/// are kept unique so the question never arises.
pub open spec fn entries_map(s: Seq<TableFields>) -> Map<Seq<char>, Seq<FieldInfoV>>
    decreases s.len(),
{
    if s.len() == 0 {
        Map::empty()
    } else {
        entries_map(s.drop_last()).insert(s.last().key@, fields_view(s.last().fields@))
    }
}

pub open spec fn keys_unique(s: Seq<TableFields>) -> bool {
    forall|i: int, j: int| 0 <= i < j < s.len() ==> s[i].key@ != s[j].key@
}

pub proof fn lemma_entries_map_contains(s: Seq<TableFields>, k: Seq<char>)
    ensures
        entries_map(s).contains_key(k) <==> exists|i: int| 0 <= i < s.len() && s[i].key@ == k,
    decreases s.len(),
{
    if s.len() > 0 {
        lemma_entries_map_contains(s.drop_last(), k);
        if s.last().key@ == k {
            assert(s[s.len() - 1].key@ == k);
        } else if entries_map(s).contains_key(k) {
            let i = choose|i: int| 0 <= i < s.drop_last().len() && s.drop_last()[i].key@ == k;
            assert(s[i].key@ == k);
        } else if exists|i: int| 0 <= i < s.len() && s[i].key@ == k {
            let i = choose|i: int| 0 <= i < s.len() && s[i].key@ == k;
            assert(s.drop_last()[i].key@ == k);
        }
    }
}

pub proof fn lemma_entries_map_value(s: Seq<TableFields>, i: int)
    requires
        keys_unique(s),
        0 <= i < s.len(),
    ensures
        entries_map(s).contains_key(s[i].key@),
        entries_map(s)[s[i].key@] == fields_view(s[i].fields@),
    decreases s.len(),
{
    lemma_entries_map_contains(s, s[i].key@);
    if i < s.len() - 1 {
        assert(s.drop_last()[i] == s[i]);
        assert(keys_unique(s.drop_last())) by {
            assert(forall|a: int, b: int|
                0 <= a < b < s.drop_last().len() ==> s.drop_last()[a] == s[a]
                    && s.drop_last()[b] == s[b]);
        }
        lemma_entries_map_value(s.drop_last(), i);
        assert(s[i].key@ != s.last().key@);
    }
}

pub proof fn lemma_entries_map_remove(s: Seq<TableFields>, i: int)
    requires
        keys_unique(s),
        0 <= i < s.len(),
    ensures
        keys_unique(s.remove(i)),
        entries_map(s.remove(i)) =~= entries_map(s).remove(s[i].key@),
    decreases s.len(),
{
    let k = s[i].key@;
    assert(keys_unique(s.remove(i))) by {
        assert(forall|a: int, b: int|
            0 <= a < b < s.remove(i).len() ==> #[trigger] s.remove(i)[a].key@ != #[trigger] s.remove(
                i,
            )[b].key@) by {
            assert(forall|a: int|
                0 <= a < s.remove(i).len() ==> #[trigger] s.remove(i)[a] == (if a < i {
                    s[a]
                } else {
                    s[a + 1]
                }));
        }
    }
    if i == s.len() - 1 {
        assert(s.remove(i) =~= s.drop_last());
        lemma_entries_map_contains(s.drop_last(), k);
        assert(entries_map(s.drop_last()) =~= entries_map(s).remove(k));
    } else {
        lemma_entries_map_remove(s.drop_last(), i);
        assert(s.remove(i).drop_last() =~= s.drop_last().remove(i));
        assert(s.remove(i).last() == s.last());
        assert(k != s.last().key@);
        assert(entries_map(s.remove(i)) =~= entries_map(s).remove(k));
    }
}

pub proof fn lemma_entries_map_push_fresh(s: Seq<TableFields>, e: TableFields)
    requires
        keys_unique(s),
        forall|i: int| 0 <= i < s.len() ==> s[i].key@ != e.key@,
    ensures
        keys_unique(s.push(e)),
        entries_map(s.push(e)) == entries_map(s).insert(e.key@, fields_view(e.fields@)),
{
    assert(s.push(e).drop_last() =~= s);
    assert(s.push(e).last() == e);
    assert(keys_unique(s.push(e))) by {
        assert(forall|a: int|
            0 <= a < s.len() ==> #[trigger] s.push(e)[a] == s[a]);
    }
}

impl IdentifiersMap {
    /// Internal invariant: each key occurs once.
    pub open spec fn wf(self) -> bool {
        keys_unique(self.tables_with_fields@)
    }

    /// The table mapping this index denotes.
    pub open spec fn tables_view(self) -> Map<Seq<char>, Seq<FieldInfoV>> {
        entries_map(self.tables_with_fields@)
    }

    /// The keys in entry order.
    pub open spec fn keys_seq(self) -> Seq<Seq<char>> {
        self.tables_with_fields@.map_values(|e: TableFields| e.key@)
    }

    /// The declared enum names in declaration order.
    pub open spec fn enums_view(self) -> Seq<Seq<char>> {
        self.enums_without_discriminants@.map_values(|e: String| e@)
    }

    /// All table keys, canonical names and aliases alike.
    pub fn tables(&self) -> (r: Option<Vec<String>>)
        ensures
            match r {
                Option::Some(v) => v@.map_values(|s: String| s@) =~= self.keys_seq(),
                Option::None => false,
            },
    {
        let n = self.tables_with_fields.len();
        let mut v: Vec<String> = Vec::new();
        let mut j: usize = 0;
        while j < n
            invariant
                n == self.tables_with_fields@.len(),
                j <= n,
                v@.len() == j,
                forall|a: int| 0 <= a < j ==> v@[a]@ == self.tables_with_fields@[a].key@,
            decreases n - j,
        {
            v.push(self.tables_with_fields[j].key.clone());
            j = j + 1;
        }
        Option::Some(v)
    }

    /// The field list recorded under `table_name`, when the key is present.
    pub fn fields_of_table(&self, table_name: &str) -> (r: Option<Vec<FieldInfo>>)
        requires
            self.wf(),
        ensures
            match r {
                Option::Some(v) => self.tables_view().contains_key(table_name@)
                    && fields_view(v@) == self.tables_view()[table_name@],
                Option::None => !self.tables_view().contains_key(table_name@),
            },
    {
        let key = String::from_str(table_name);
        let n = self.tables_with_fields.len();
        let mut j: usize = 0;
        while j < n
            invariant
                self.wf(),
                key@ == table_name@,
                n == self.tables_with_fields@.len(),
                j <= n,
                forall|a: int| 0 <= a < j ==> self.tables_with_fields@[a].key@ != table_name@,
            decreases n - j,
        {
            if self.tables_with_fields[j].key == key {
                let fields = clone_fields(&self.tables_with_fields[j].fields);
                proof {
                    lemma_entries_map_value(self.tables_with_fields@, j as int);
                }
                return Option::Some(fields);
            }
            j = j + 1;
        }
        proof {
            lemma_entries_map_contains(self.tables_with_fields@, table_name@);
        }
        Option::None
    }
}

impl Default for IdentifiersMap {
    /// An empty index.
    fn default() -> (r: Self)
        ensures
            r.wf(),
            r.tables_view() =~= Map::<Seq<char>, Seq<FieldInfoV>>::empty(),
            r.enums_view() =~= Seq::<Seq<char>>::empty(),
    {
        IdentifiersMap { tables_with_fields: Vec::new(), enums_without_discriminants: Vec::new() }
    }
}

/// Editor-side range of node `i`.
pub open spec fn range_of(t: SyntaxTree, i: int) -> Range {
    Range {
        start: Position { line: t.node(i).start.row, character: t.node(i).start.column },
        end: Position { line: t.node(i).end.row, character: t.node(i).end.column },
    }
}

/// The table-definition node three levels above a field-name node.
pub open spec fn table_def_of(t: SyntaxTree, i: int) -> int {
    t.parent_of(t.parent_of(t.parent_of(i)))
}

/// Node `i` is a field-name identifier nested in a field declaration inside
/// a table definition's field list, where the table declares a name and the
/// field declares a type after its name. Exactly these nodes produce a
/// [`FieldInfo`]; a field-name node outside that shape is dropped silently.
pub open spec fn is_field_name_match(t: SyntaxTree, i: int) -> bool {
    &&& 0 <= i < t.len()
    &&& t.node(i).kind == NodeKind::Identifier
    &&& t.node(i).label == Option::Some(FieldLabel::Name)
    &&& t.parent_of(i) >= 0
    &&& t.node(t.parent_of(i)).kind == NodeKind::FieldDeclaration
    &&& t.parent_of(t.parent_of(i)) >= 0
    &&& t.node(t.parent_of(t.parent_of(i))).kind == NodeKind::FieldDeclarationList
    &&& table_def_of(t, i) >= 0
    &&& t.node(table_def_of(t, i)).kind == NodeKind::TableDefinition
    &&& t.child_with_label(table_def_of(t, i), FieldLabel::Name) >= 0
    &&& t.next_sibling_of(i) >= 0
}

/// Canonical name text of the table owning field-name node `i`.
pub open spec fn table_name_spec(t: SyntaxTree, src: Seq<char>, i: int) -> Seq<char> {
    t.text_of(src, t.child_with_label(table_def_of(t, i), FieldLabel::Name))
}

/// The alias node of the table owning field-name node `i`, or -1.
pub open spec fn alias_node(t: SyntaxTree, i: int) -> int {
    t.child_with_label(table_def_of(t, i), FieldLabel::Alias)
}

/// The record produced for field-name node `i`.
pub open spec fn field_info_spec(t: SyntaxTree, src: Seq<char>, i: int) -> FieldInfoV {
    FieldInfoV {
        name: t.text_of(src, i),
        typ: t.text_of(src, t.next_sibling_of(i)),
        range: range_of(t, i),
    }
}

/// Appends `v` at the end of the list under `k`, starting the list when the
/// key is new; no entry under any other key changes.
pub open spec fn append_under(
    m: Map<Seq<char>, Seq<FieldInfoV>>,
    k: Seq<char>,
    v: FieldInfoV,
) -> Map<Seq<char>, Seq<FieldInfoV>> {
    if m.contains_key(k) {
        m.insert(k, m[k].push(v))
    } else {
        m.insert(k, seq![v])
    }
}

/// The table mapping after the first `n` nodes: each field-name match adds
/// its record under the owning table's alias (when one is declared) and
/// under its canonical name, in node order.
pub open spec fn build_tables(t: SyntaxTree, src: Seq<char>, n: int) -> Map<
    Seq<char>,
    Seq<FieldInfoV>,
>
    decreases n,
{
    if n <= 0 {
        Map::empty()
    } else {
        let m = build_tables(t, src, n - 1);
        let i = n - 1;
        if is_field_name_match(t, i) {
            let info = field_info_spec(t, src, i);
            let m1 = if alias_node(t, i) >= 0 {
                append_under(m, t.text_of(src, alias_node(t, i)), info)
            } else {
                m
            };
            append_under(m1, table_name_spec(t, src, i), info)
        } else {
            m
        }
    }
}

/// Node `i` is the name identifier of an enum definition.
pub open spec fn is_enum_name_match(t: SyntaxTree, i: int) -> bool {
    &&& 0 <= i < t.len()
    &&& t.node(i).kind == NodeKind::Identifier
    &&& t.node(i).label == Option::Some(FieldLabel::Name)
    &&& t.parent_of(i) >= 0
    &&& t.node(t.parent_of(i)).kind == NodeKind::EnumDefinition
}

/// The enum names recorded from the first `n` nodes, in node order.
pub open spec fn build_enums(t: SyntaxTree, src: Seq<char>, n: int) -> Seq<Seq<char>>
    decreases n,
{
    if n <= 0 {
        Seq::empty()
    } else {
        let s = build_enums(t, src, n - 1);
        if is_enum_name_match(t, n - 1) {
            s.push(t.text_of(src, n - 1))
        } else {
            s
        }
    }
}

/// Appends `info` at the end of the list under `key`.
fn append_field(map: &mut IdentifiersMap, key: String, info: FieldInfo)
    requires
        old(map).wf(),
    ensures
        final(map).wf(),
        final(map).tables_view() == append_under(old(map).tables_view(), key@, info@),
        final(map).enums_without_discriminants == old(map).enums_without_discriminants,
{
    let n = map.tables_with_fields.len();
    let mut j: usize = 0;
    while j < n
        invariant
            old(map).wf(),
            *map == *old(map),
            n == map.tables_with_fields@.len(),
            j <= n,
            forall|a: int| 0 <= a < j ==> map.tables_with_fields@[a].key@ != key@,
        decreases n - j,
    {
        if map.tables_with_fields[j].key == key {
            proof {
                lemma_entries_map_value(map.tables_with_fields@, j as int);
                lemma_entries_map_remove(map.tables_with_fields@, j as int);
            }
            let ghost s0 = map.tables_with_fields@;
            let mut entry = map.tables_with_fields.remove(j);
            entry.fields.push(info);
            proof {
                assert(forall|a: int|
                    0 <= a < s0.remove(j as int).len() ==> #[trigger] s0.remove(j as int)[a] == (
                    if a < j as int {
                        s0[a]
                    } else {
                        s0[a + 1]
                    }));
                assert(forall|a: int|
                    0 <= a < s0.remove(j as int).len() ==> s0.remove(j as int)[a].key@
                        != entry.key@);
                lemma_entries_map_push_fresh(s0.remove(j as int), entry);
                assert(fields_view(entry.fields@) =~= fields_view(s0[j as int].fields@).push(
                    info@,
                ));
            }
            map.tables_with_fields.push(entry);
            proof {
                assert(map.tables_view() =~= append_under(
                    entries_map(s0),
                    key@,
                    info@,
                ));
            }
            return ;
        }
        j = j + 1;
    }
    proof {
        lemma_entries_map_contains(map.tables_with_fields@, key@);
    }
    let mut fields: Vec<FieldInfo> = Vec::new();
    fields.push(info);
    let ghost s0 = map.tables_with_fields@;
    let ghost new_entry = TableFields { key: key, fields: fields };
    map.tables_with_fields.push(TableFields { key, fields });
    proof {
        lemma_entries_map_push_fresh(s0, new_entry);
        assert(fields_view(new_entry.fields@) =~= seq![info@]);
        assert(map.tables_view() =~= append_under(entries_map(s0), new_entry.key@, info@));
    }
}

/// Records every field-name match of the tree into the map, under the
/// owning table's canonical name and, when one is declared, its alias.
fn populate_table_identifiers(source: &str, tree: &SyntaxTree, out_identifiers_map: &mut IdentifiersMap)
    requires
        tree.wf(),
        old(out_identifiers_map).wf(),
        old(out_identifiers_map).tables_with_fields@.len() == 0,
    ensures
        final(out_identifiers_map).wf(),
        final(out_identifiers_map).tables_view() == build_tables(
            *tree,
            source@,
            tree.nodes@.len() as int,
        ),
        final(out_identifiers_map).enums_without_discriminants == old(
            out_identifiers_map,
        ).enums_without_discriminants,
{
    let n = tree.nodes.len();
    let mut i: usize = 0;
    while i < n
        invariant
            tree.wf(),
            out_identifiers_map.wf(),
            n == tree.nodes@.len(),
            i <= n,
            out_identifiers_map.tables_view() == build_tables(*tree, source@, i as int),
            out_identifiers_map.enums_without_discriminants == old(
                out_identifiers_map,
            ).enums_without_discriminants,
        decreases n - i,
    {
        let matches_name = matches!(tree.nodes[i].kind, NodeKind::Identifier) && matches!(
            tree.nodes[i].label,
            Option::Some(FieldLabel::Name),
        );
        let mut recorded = false;
        if matches_name {
            if let Option::Some(fd) = tree.nodes[i].parent {
                proof {
                    assert(0 <= tree.parent_of(i as int) < i as int);
                }
                if matches!(tree.nodes[fd].kind, NodeKind::FieldDeclaration) {
                    if let Option::Some(fdl) = tree.nodes[fd].parent {
                        proof {
                            if fd as int >= 1 {
                                assert(0 <= tree.parent_of(fd as int) < fd as int);
                            }
                        }
                        if matches!(tree.nodes[fdl].kind, NodeKind::FieldDeclarationList) {
                            if let Option::Some(td) = tree.nodes[fdl].parent {
                                proof {
                                    if fdl as int >= 1 {
                                        assert(0 <= tree.parent_of(fdl as int) < fdl as int);
                                    }
                                }
                                if matches!(tree.nodes[td].kind, NodeKind::TableDefinition) {
                                    proof {
                                        assert(tree.ancestor_of_kind(
                                            i as int,
                                            NodeKind::TableDefinition,
                                        ) == tree.ancestor_of_kind(
                                            fd as int,
                                            NodeKind::TableDefinition,
                                        ));
                                        assert(tree.ancestor_of_kind(
                                            fd as int,
                                            NodeKind::TableDefinition,
                                        ) == tree.ancestor_of_kind(
                                            fdl as int,
                                            NodeKind::TableDefinition,
                                        ));
                                        assert(tree.ancestor_of_kind(
                                            fdl as int,
                                            NodeKind::TableDefinition,
                                        ) == td as int);
                                    }
                                    let table_name = node_parent_identifier(
                                        source,
                                        tree,
                                        i,
                                        NodeKind::TableDefinition,
                                        FieldLabel::Name,
                                    );
                                    if let Option::Some(name) = table_name {
                                        if let Option::Some(sib) = tree.next_sibling(i) {
                                            let field_name = tree.node_text(source, i);
                                            let type_text = tree.node_text(source, sib);
                                            let range = Range::from(
                                                (tree.nodes[i].start, tree.nodes[i].end),
                                            );
                                            let info = FieldInfo {
                                                text_name: field_name,
                                                field_type: type_text,
                                                range,
                                            };
                                            proof {
                                                assert(is_field_name_match(*tree, i as int));
                                                assert(info@ == field_info_spec(
                                                    *tree,
                                                    source@,
                                                    i as int,
                                                ));
                                                assert(name@ == table_name_spec(
                                                    *tree,
                                                    source@,
                                                    i as int,
                                                ));
                                            }
                                            let alias = node_parent_identifier(
                                                source,
                                                tree,
                                                i,
                                                NodeKind::TableDefinition,
                                                FieldLabel::Alias,
                                            );
                                            match alias {
                                                Option::Some(al) => {
                                                    proof {
                                                        assert(alias_node(*tree, i as int) >= 0);
                                                        assert(al@ == tree.text_of(
                                                            source@,
                                                            alias_node(*tree, i as int),
                                                        ));
                                                    }
                                                    append_field(
                                                        out_identifiers_map,
                                                        al,
                                                        info.clone(),
                                                    );
                                                },
                                                Option::None => {
                                                    proof {
                                                        assert(alias_node(*tree, i as int) < 0);
                                                    }
                                                },
                                            }
                                            append_field(out_identifiers_map, name, info);
                                            recorded = true;
                                        }
                                    }
                                }
                            }
                        }
                    }
                }
            }
        }
        proof {
            if !recorded {
                assert(!is_field_name_match(*tree, i as int));
            }
            assert(out_identifiers_map.tables_view() == build_tables(
                *tree,
                source@,
                i as int + 1,
            ));
        }
        i = i + 1;
    }
}

/// Records every enum-definition name of the tree, replacing the enum list.
fn populate_enum_identifiers(source: &str, tree: &SyntaxTree, out_identifiers_map: &mut IdentifiersMap)
    requires
        tree.wf(),
        old(out_identifiers_map).wf(),
    ensures
        final(out_identifiers_map).wf(),
        final(out_identifiers_map).enums_view() == build_enums(
            *tree,
            source@,
            tree.nodes@.len() as int,
        ),
        final(out_identifiers_map).tables_with_fields == old(
            out_identifiers_map,
        ).tables_with_fields,
{
    let n = tree.nodes.len();
    let mut enum_identifiers: Vec<String> = Vec::new();
    let mut i: usize = 0;
    while i < n
        invariant
            tree.wf(),
            n == tree.nodes@.len(),
            i <= n,
            enum_identifiers@.map_values(|e: String| e@) == build_enums(
                *tree,
                source@,
                i as int,
            ),
        decreases n - i,
    {
        let ghost prev = enum_identifiers@;
        let mut matched = false;
        if matches!(tree.nodes[i].kind, NodeKind::Identifier) && matches!(
            tree.nodes[i].label,
            Option::Some(FieldLabel::Name),
        ) {
            if let Option::Some(p) = tree.nodes[i].parent {
                proof {
                    assert(0 <= tree.parent_of(i as int) < i as int);
                }
                if matches!(tree.nodes[p].kind, NodeKind::EnumDefinition) {
                    enum_identifiers.push(tree.node_text(source, i));
                    matched = true;
                    proof {
                        assert(is_enum_name_match(*tree, i as int));
                        assert(enum_identifiers@.map_values(|e: String| e@) =~= prev.map_values(
                            |e: String| e@,
                        ).push(tree.text_of(source@, i as int)));
                    }
                }
            }
        }
        proof {
            if !matched {
                assert(!is_enum_name_match(*tree, i as int));
            }
            assert(enum_identifiers@.map_values(|e: String| e@) == build_enums(
                *tree,
                source@,
                i as int + 1,
            ));
        }
        i = i + 1;
    }
    out_identifiers_map.enums_without_discriminants = enum_identifiers;
}

/// Builds the identifier index of one document from its source and tree:
/// the table/field pass first, then the enum pass.
pub fn populate_identifiers(source: &str, tree: &SyntaxTree) -> (r: IdentifiersMap)
    requires
        tree.wf(),
    ensures
        r.wf(),
        r.tables_view() == build_tables(*tree, source@, tree.nodes@.len() as int),
        r.enums_view() == build_enums(*tree, source@, tree.nodes@.len() as int),
{
    let mut identifiers_map = IdentifiersMap {
        tables_with_fields: Vec::new(),
        enums_without_discriminants: Vec::new(),
    };
    populate_table_identifiers(source, tree, &mut identifiers_map);
    populate_enum_identifiers(source, tree, &mut identifiers_map);
    identifiers_map
}

/// Rebuilding the index from unchanged source and tree yields identical
/// content: any two indexes built from the same inputs agree on the table
/// mapping and on the enum names.
pub proof fn lemma_rebuild_idempotent(
    m1: IdentifiersMap,
    m2: IdentifiersMap,
    t: SyntaxTree,
    src: Seq<char>,
)
    requires
        m1.tables_view() == build_tables(t, src, t.len()),
        m1.enums_view() == build_enums(t, src, t.len()),
        m2.tables_view() == build_tables(t, src, t.len()),
        m2.enums_view() == build_enums(t, src, t.len()),
    ensures
        m1.tables_view() == m2.tables_view(),
        m1.enums_view() == m2.enums_view(),
{
}

/// The source slice at a record's range equals its stored field name text.
pub open spec fn field_round_trip(src: Seq<char>, f: FieldInfoV) -> bool {
    slice_at(
        src,
        Point { row: f.range.start.line, column: f.range.start.character },
        Point { row: f.range.end.line, column: f.range.end.character },
    ) == f.name
}

/// Every record of the mapping satisfies the round trip.
pub open spec fn map_round_trip(src: Seq<char>, m: Map<Seq<char>, Seq<FieldInfoV>>) -> bool {
    forall|k: Seq<char>, j: int|
        m.contains_key(k) && 0 <= j < m[k].len() ==> field_round_trip(src, #[trigger] m[k][j])
}

proof fn lemma_append_under_round_trip(
    m: Map<Seq<char>, Seq<FieldInfoV>>,
    k: Seq<char>,
    v: FieldInfoV,
    src: Seq<char>,
)
    requires
        map_round_trip(src, m),
        field_round_trip(src, v),
    ensures
        map_round_trip(src, append_under(m, k, v)),
{
    let m2 = append_under(m, k, v);
    assert forall|kk: Seq<char>, j: int|
        m2.contains_key(kk) && 0 <= j < m2[kk].len() implies field_round_trip(
        src,
        #[trigger] m2[kk][j],
    ) by {
        if kk == k {
            if m.contains_key(k) {
                if j < m[k].len() {
                    assert(m2[kk][j] == m[k][j]);
                } else {
                    assert(m2[kk][j] == v);
                }
            } else {
                assert(m2[kk][j] == v);
            }
        } else {
            assert(m2[kk][j] == m[kk][j]);
        }
    }
}

/// For every record the table/field pass produces, the source slice at its
/// recorded range equals its stored field name text.
pub proof fn lemma_build_tables_round_trip(t: SyntaxTree, src: Seq<char>, n: int)
    ensures
        map_round_trip(src, build_tables(t, src, n)),
    decreases n,
{
    if n <= 0 {
        assert(map_round_trip(src, build_tables(t, src, n)));
    } else {
        lemma_build_tables_round_trip(t, src, n - 1);
        let i = n - 1;
        if is_field_name_match(t, i) {
            let info = field_info_spec(t, src, i);
            assert(field_round_trip(src, info));
            let m = build_tables(t, src, n - 1);
            if alias_node(t, i) >= 0 {
                lemma_append_under_round_trip(m, t.text_of(src, alias_node(t, i)), info, src);
                lemma_append_under_round_trip(
                    append_under(m, t.text_of(src, alias_node(t, i)), info),
                    table_name_spec(t, src, i),
                    info,
                    src,
                );
            } else {
                lemma_append_under_round_trip(m, table_name_spec(t, src, i), info, src);
            }
        }
    }
}

/// Canonical name and alias of the same table key to field lists with
/// identical content. The hypotheses name the table by its texts `c`
/// (canonical) and `a` (alias) and ask that no other table's name or alias
/// collides with either text; a document whose tables share names or
/// aliases is outside this law.
pub proof fn lemma_alias_matches_canonical(
    t: SyntaxTree,
    src: Seq<char>,
    c: Seq<char>,
    a: Seq<char>,
    n: int,
)
    requires
        c != a,
        forall|i: int|
            #[trigger] is_field_name_match(t, i) ==> (table_name_spec(t, src, i) == c <==> (
            alias_node(t, i) >= 0 && t.text_of(src, alias_node(t, i)) == a)),
        forall|i: int| #[trigger] is_field_name_match(t, i) ==> table_name_spec(t, src, i) != a,
        forall|i: int|
            #[trigger] is_field_name_match(t, i) && alias_node(t, i) >= 0 ==> t.text_of(
                src,
                alias_node(t, i),
            ) != c,
    ensures
        build_tables(t, src, n).contains_key(c) <==> build_tables(t, src, n).contains_key(a),
        build_tables(t, src, n).contains_key(c) ==> build_tables(t, src, n)[c] == build_tables(
            t,
            src,
            n,
        )[a],
    decreases n,
{
    if n > 0 {
        lemma_alias_matches_canonical(t, src, c, a, n - 1);
        let i = n - 1;
        let m = build_tables(t, src, n - 1);
        if is_field_name_match(t, i) {
            let info = field_info_spec(t, src, i);
            let canon = table_name_spec(t, src, i);
            if canon == c {
                let al = t.text_of(src, alias_node(t, i));
                assert(alias_node(t, i) >= 0 && al == a);
                let m1 = append_under(m, al, info);
                let m2 = append_under(m1, canon, info);
                assert(m2.contains_key(c) && m2.contains_key(a));
                assert(m2[c] == m2[a]);
            } else {
                assert(canon != a);
                if alias_node(t, i) >= 0 {
                    let al = t.text_of(src, alias_node(t, i));
                    assert(al != c);
                    assert(al != a);
                }
            }
        }
    }
}

/// Copies a field list, element for element.
fn clone_fields(fs: &Vec<FieldInfo>) -> (r: Vec<FieldInfo>)
    ensures
        r@ =~= fs@,
{
    let n = fs.len();
    let mut v: Vec<FieldInfo> = Vec::new();
    let mut j: usize = 0;
    while j < n
        invariant
            n == fs@.len(),
            j <= n,
            v@.len() == j,
            forall|a: int| 0 <= a < j ==> v@[a] == fs@[a],
        decreases n - j,
    {
        v.push(fs[j].clone());
        j = j + 1;
    }
    v
}

} // verus!
