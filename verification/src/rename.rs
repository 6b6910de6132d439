//! Structural rename: classifying the identifier under the cursor by
//! grammatical role and producing a replace-edit set.
//!
//! Rename refuses unless the node at the cursor is an identifier token.
//! The identifier's role — table name, field name, or enum reference — is
//! found by walking to the nearest ancestor of a known defining kind; the
//! role selects which occurrences across the tree are rewritten. The
//! resolver never checks name collisions or reserved words: correctness of
//! the new name is the caller's responsibility.

use vstd::prelude::*;

use crate::index::range_of;
use crate::navigation::{node_parent_identifier, parent_identifier_spec};
use crate::tree::{FieldLabel, NodeKind, SyntaxTree};
use crate::wrappers::{Point, Position, Range};

verus! {

/// One replacement: the new text over a source range.
#[derive(Debug, Clone, PartialEq, Eq)]
pub struct TextEdit {
    pub range: Range,
    pub new_text: String,
}

/// Mathematical image of a [`TextEdit`].
pub struct TextEditV {
    pub range: Range,
    pub new_text: Seq<char>,
}

impl View for TextEdit {
    type V = TextEditV;

    open spec fn view(&self) -> TextEditV {
        TextEditV { range: self.range, new_text: self.new_text@ }
    }
}

/// The edit set of one rename: every edit grouped under the requesting
/// document's identity.
#[derive(Debug)]
pub struct WorkspaceEdit {
    pub document: String,
    pub changes: Vec<TextEdit>,
}

/// Mathematical image of a [`WorkspaceEdit`].
pub struct WorkspaceEditV {
    pub document: Seq<char>,
    pub changes: Seq<TextEditV>,
}

pub open spec fn workspace_edit_view(w: WorkspaceEdit) -> WorkspaceEditV {
    WorkspaceEditV {
        document: w.document@,
        changes: w.changes@.map_values(|e: TextEdit| e@),
    }
}

/// Grammatical role of the identifier under the cursor, with the texts the
/// role's occurrence rules are parameterized by.
#[derive(Debug)]
pub enum RenameRules {
    /// A field name, with its owning table's name first.
    Field(String, String),
    /// A table name.
    Table(String),
    /// An enum reference.
    Enum(String),
}

/// Mathematical image of a [`RenameRules`].
pub enum RenameRulesV {
    Field(Seq<char>, Seq<char>),
    Table(Seq<char>),
    Enum(Seq<char>),
}

pub open spec fn role_view(r: RenameRules) -> RenameRulesV {
    match r {
        RenameRules::Field(t, f) => RenameRulesV::Field(t@, f@),
        RenameRules::Table(t) => RenameRulesV::Table(t@),
        RenameRules::Enum(e) => RenameRulesV::Enum(e@),
    }
}

/// Kinds that define or reference an identifier: the ancestors that decide
/// a rename's role.
pub open spec fn is_defining_kind(k: NodeKind) -> bool {
    k == NodeKind::TableDefinition || k == NodeKind::FieldDeclaration || k
        == NodeKind::EnumDefinition || k == NodeKind::TableField
}

/// Nearest ancestor of `i` with a defining kind, walking upward and giving
/// up at the document root; -1 when none is found.
pub open spec fn defining_ancestor(t: SyntaxTree, i: int) -> int
    decreases i
        when t.wf() && 0 <= i < t.len()
{
    let p = t.parent_of(i);
    if p < 0 {
        -1
    } else if is_defining_kind(t.node(p).kind) {
        p
    } else if t.node(p).kind == NodeKind::ProjectFile {
        -1
    } else {
        defining_ancestor(t, p)
    }
}

/// Role of the identifier at node `n`, when one can be determined.
pub open spec fn classify_role_spec(t: SyntaxTree, src: Seq<char>, n: int) -> Option<
    RenameRulesV,
> {
    let a = defining_ancestor(t, n);
    if a < 0 {
        Option::None
    } else {
        let ident = t.text_of(src, n);
        if t.node(a).kind == NodeKind::TableDefinition {
            Option::Some(RenameRulesV::Table(ident))
        } else if t.node(a).kind == NodeKind::EnumDefinition {
            Option::Some(RenameRulesV::Enum(ident))
        } else if t.node(a).kind == NodeKind::FieldDeclaration {
            if t.node(n).label == Option::Some(FieldLabel::Name) {
                match parent_identifier_spec(t, src, n, NodeKind::TableDefinition,
                    FieldLabel::Name) {
                    Option::Some(tbl) => Option::Some(RenameRulesV::Field(tbl, ident)),
                    Option::None => Option::None,
                }
            } else {
                Option::Some(RenameRulesV::Enum(ident))
            }
        } else {
            if t.node(n).label == Option::Some(FieldLabel::TableRef) {
                Option::Some(RenameRulesV::Table(ident))
            } else if t.node(n).label == Option::Some(FieldLabel::FieldRef) {
                let c = t.child_with_label(a, FieldLabel::TableRef);
                if c < 0 {
                    Option::None
                } else {
                    Option::Some(RenameRulesV::Field(t.text_of(src, c), ident))
                }
            } else {
                Option::None
            }
        }
    }
}

/// Node `j` is an occurrence the table role rewrites: a table-definition
/// name, or the table side of a table-field reference, with text `name`.
pub open spec fn is_table_match(t: SyntaxTree, src: Seq<char>, j: int, name: Seq<char>) -> bool {
    &&& 0 <= j < t.len()
    &&& t.node(j).kind == NodeKind::Identifier
    &&& t.parent_of(j) >= 0
    &&& t.text_of(src, j) == name
    &&& ((t.node(j).label == Option::Some(FieldLabel::Name) && t.node(t.parent_of(j)).kind
        == NodeKind::TableDefinition) || (t.node(j).label == Option::Some(FieldLabel::TableRef)
        && t.node(t.parent_of(j)).kind == NodeKind::TableField))
}

/// Node `j` is an occurrence the field role rewrites: a field-declaration
/// name inside the owning table, or the field side of any table-field
/// reference, with text `name` — never a node sitting directly under a
/// table definition, so targeting a field cannot rename the table.
pub open spec fn is_field_match(
    t: SyntaxTree,
    src: Seq<char>,
    j: int,
    table: Seq<char>,
    name: Seq<char>,
) -> bool {
    &&& 0 <= j < t.len()
    &&& t.node(j).kind == NodeKind::Identifier
    &&& t.parent_of(j) >= 0
    &&& t.text_of(src, j) == name
    &&& ((t.node(j).label == Option::Some(FieldLabel::Name) && t.node(t.parent_of(j)).kind
        == NodeKind::FieldDeclaration && parent_identifier_spec(
        t,
        src,
        j,
        NodeKind::TableDefinition,
        FieldLabel::Name,
    ) == Option::Some(table)) || (t.node(j).label == Option::Some(FieldLabel::FieldRef)
        && t.node(t.parent_of(j)).kind == NodeKind::TableField))
    &&& t.node(t.parent_of(j)).kind != NodeKind::TableDefinition
}

/// Node `j` is an occurrence the enum role rewrites: a field type
/// reference with text `name`.
pub open spec fn is_enum_type_match(t: SyntaxTree, src: Seq<char>, j: int, name: Seq<char>) -> bool {
    &&& 0 <= j < t.len()
    &&& t.node(j).label == Option::Some(FieldLabel::TypeRef)
    &&& t.parent_of(j) >= 0
    &&& t.node(t.parent_of(j)).kind == NodeKind::FieldDeclaration
    &&& t.text_of(src, j) == name
}

/// Node `j` is rewritten under `role`.
pub open spec fn role_match(t: SyntaxTree, src: Seq<char>, role: RenameRulesV, j: int) -> bool {
    match role {
        RenameRulesV::Table(name) => is_table_match(t, src, j, name),
        RenameRulesV::Field(table, name) => is_field_match(t, src, j, table, name),
        RenameRulesV::Enum(name) => is_enum_type_match(t, src, j, name),
    }
}

/// The edit list over the first `n` nodes: one replace-edit per occurrence
/// the role rewrites, in node order.
pub open spec fn rename_edits(
    t: SyntaxTree,
    src: Seq<char>,
    role: RenameRulesV,
    new_name: Seq<char>,
    n: int,
) -> Seq<TextEditV>
    decreases n,
{
    if n <= 0 {
        Seq::empty()
    } else {
        let s = rename_edits(t, src, role, new_name, n - 1);
        if role_match(t, src, role, n - 1) {
            s.push(TextEditV { range: range_of(t, n - 1), new_text: new_name })
        } else {
            s
        }
    }
}

/// The replace-edit that rewriting node `j` produces.
pub open spec fn edit_for(t: SyntaxTree, j: int, new_name: Seq<char>) -> TextEditV {
    TextEditV { range: range_of(t, j), new_text: new_name }
}

/// The whole rename: a refusal unless the cursor node is an identifier
/// whose role can be classified; otherwise one edit set under the
/// requesting document's identity.
pub open spec fn rename_spec(
    t: SyntaxTree,
    src: Seq<char>,
    p: Point,
    new_name: Seq<char>,
    uri: Seq<char>,
) -> Option<WorkspaceEditV> {
    let n = t.descend_from(0, p, false);
    if t.node(n).kind != NodeKind::Identifier {
        Option::None
    } else {
        match classify_role_spec(t, src, n) {
            Option::None => Option::None,
            Option::Some(role) => Option::Some(
                WorkspaceEditV {
                    document: uri,
                    changes: rename_edits(t, src, role, new_name, t.len()),
                },
            ),
        }
    }
}

/// Rename invoked where the cursor node is not an identifier token — on
/// whitespace, the node found is the enclosing structure or the document
/// root — returns a refusal and produces no edit set.
pub proof fn lemma_rename_refuses_non_identifier(
    t: SyntaxTree,
    src: Seq<char>,
    p: Point,
    new_name: Seq<char>,
    uri: Seq<char>,
)
    requires
        t.node(t.descend_from(0, p, false)).kind != NodeKind::Identifier,
    ensures
        rename_spec(t, src, p, new_name, uri) is None,
{
}

proof fn lemma_rename_edits_complete(
    t: SyntaxTree,
    src: Seq<char>,
    role: RenameRulesV,
    new_name: Seq<char>,
    n: int,
    j: int,
)
    requires
        0 <= j < n,
        role_match(t, src, role, j),
    ensures
        rename_edits(t, src, role, new_name, n).contains(edit_for(t, j, new_name)),
    decreases n,
{
    let e = edit_for(t, j, new_name);
    if j == n - 1 {
        let s = rename_edits(t, src, role, new_name, n - 1);
        assert(rename_edits(t, src, role, new_name, n)[s.len() as int] == e);
    } else {
        lemma_rename_edits_complete(t, src, role, new_name, n - 1, j);
        let s = rename_edits(t, src, role, new_name, n - 1);
        let w = choose|w: int| 0 <= w < s.len() && s[w] == e;
        assert(rename_edits(t, src, role, new_name, n)[w] == e);
    }
}

proof fn lemma_rename_edits_sound(
    t: SyntaxTree,
    src: Seq<char>,
    role: RenameRulesV,
    new_name: Seq<char>,
    n: int,
    k: int,
)
    requires
        0 <= k < rename_edits(t, src, role, new_name, n).len(),
    ensures
        exists|j: int|
            0 <= j < n && #[trigger] role_match(t, src, role, j) && rename_edits(
                t,
                src,
                role,
                new_name,
                n,
            )[k] == edit_for(t, j, new_name),
    decreases n,
{
    let s = rename_edits(t, src, role, new_name, n - 1);
    if role_match(t, src, role, n - 1) && k == s.len() {
        assert(role_match(t, src, role, n - 1) && rename_edits(t, src, role, new_name, n)[k]
            == edit_for(t, n - 1, new_name));
    } else {
        lemma_rename_edits_sound(t, src, role, new_name, n - 1, k);
        let j = choose|j: int|
            0 <= j < n - 1 && #[trigger] role_match(t, src, role, j) && s[k] == edit_for(
                t,
                j,
                new_name,
            );
        assert(role_match(t, src, role, j) && rename_edits(t, src, role, new_name, n)[k]
            == edit_for(t, j, new_name));
    }
}

/// A rename under the table role covers every table-definition name
/// occurrence and every table-side relationship reference of that name —
/// each such node contributes its replace-edit — and no field-declaration
/// name is touched, a field-declaration name never being a table-role
/// occurrence. Together with [`lemma_table_rename_only_matches`], the edit
/// set holds exactly the table-role occurrences.
pub proof fn lemma_table_rename_coverage(
    t: SyntaxTree,
    src: Seq<char>,
    name: Seq<char>,
    new_name: Seq<char>,
)
    ensures
        forall|j: int|
            #[trigger] is_table_match(t, src, j, name) ==> rename_edits(
                t,
                src,
                RenameRulesV::Table(name),
                new_name,
                t.len(),
            ).contains(edit_for(t, j, new_name)),
        forall|j: int|
            0 <= j < t.len() && t.node(j).label == Option::Some(FieldLabel::Name)
                && t.parent_of(j) >= 0 && t.node(t.parent_of(j)).kind
                == NodeKind::FieldDeclaration ==> !is_table_match(t, src, j, name),
{
    assert forall|j: int| #[trigger] is_table_match(t, src, j, name) implies rename_edits(
        t,
        src,
        RenameRulesV::Table(name),
        new_name,
        t.len(),
    ).contains(edit_for(t, j, new_name)) by {
        lemma_rename_edits_complete(t, src, RenameRulesV::Table(name), new_name, t.len(), j);
    }
}

/// Every edit a table-role rename produces rewrites a table-role
/// occurrence of `name`: the edit at position `k` is the replace-edit of
/// some node matching the table role.
pub proof fn lemma_table_rename_only_matches(
    t: SyntaxTree,
    src: Seq<char>,
    name: Seq<char>,
    new_name: Seq<char>,
    k: int,
)
    requires
        0 <= k < rename_edits(t, src, RenameRulesV::Table(name), new_name, t.len()).len(),
    ensures
        exists|j: int|
            #[trigger] is_table_match(t, src, j, name) && rename_edits(
                t,
                src,
                RenameRulesV::Table(name),
                new_name,
                t.len(),
            )[k] == edit_for(t, j, new_name),
{
    lemma_rename_edits_sound(t, src, RenameRulesV::Table(name), new_name, t.len(), k);
    let j = choose|j: int|
        0 <= j < t.len() && #[trigger] role_match(t, src, RenameRulesV::Table(name), j)
            && rename_edits(t, src, RenameRulesV::Table(name), new_name, t.len())[k] == edit_for(
            t,
            j,
            new_name,
        );
    assert(is_table_match(t, src, j, name) && rename_edits(
        t,
        src,
        RenameRulesV::Table(name),
        new_name,
        t.len(),
    )[k] == edit_for(t, j, new_name));
}

/// Walks upward from `i` to the nearest ancestor of a defining kind.
fn find_defining_ancestor(tree: &SyntaxTree, i: usize) -> (r: Option<usize>)
    requires
        tree.wf(),
        i < tree.nodes@.len(),
    ensures
        match r {
            Option::Some(a) => defining_ancestor(*tree, i as int) == a as int && a
                < tree.nodes@.len(),
            Option::None => defining_ancestor(*tree, i as int) == -1,
        },
{
    let mut cur = i;
    loop
        invariant
            tree.wf(),
            cur < tree.nodes@.len(),
            defining_ancestor(*tree, i as int) == defining_ancestor(*tree, cur as int),
        decreases cur,
    {
        match tree.nodes[cur].parent {
            Option::None => {
                return Option::None;
            },
            Option::Some(p) => {
                assert(p == tree.parent_of(cur as int));
                let k = tree.nodes[p].kind;
                if matches!(k, NodeKind::TableDefinition) || matches!(
                    k,
                    NodeKind::FieldDeclaration,
                ) || matches!(k, NodeKind::EnumDefinition) || matches!(k, NodeKind::TableField) {
                    return Option::Some(p);
                }
                if matches!(k, NodeKind::ProjectFile) {
                    return Option::None;
                }
                cur = p;
            },
        }
    }
}

/// Classifies the identifier at node `node` into its rename role.
fn classify_role(source: &str, tree: &SyntaxTree, node: usize) -> (r: Option<RenameRules>)
    requires
        tree.wf(),
        node < tree.nodes@.len(),
    ensures
        match r {
            Option::Some(rr) => classify_role_spec(*tree, source@, node as int) == Option::Some(
                role_view(rr),
            ),
            Option::None => classify_role_spec(*tree, source@, node as int) is None,
        },
{
    match find_defining_ancestor(tree, node) {
        Option::None => Option::None,
        Option::Some(a) => {
            let ident = tree.node_text(source, node);
            if matches!(tree.nodes[a].kind, NodeKind::TableDefinition) {
                Option::Some(RenameRules::Table(ident))
            } else if matches!(tree.nodes[a].kind, NodeKind::EnumDefinition) {
                Option::Some(RenameRules::Enum(ident))
            } else if matches!(tree.nodes[a].kind, NodeKind::FieldDeclaration) {
                if matches!(tree.nodes[node].label, Option::Some(FieldLabel::Name)) {
                    match node_parent_identifier(
                        source,
                        tree,
                        node,
                        NodeKind::TableDefinition,
                        FieldLabel::Name,
                    ) {
                        Option::Some(tbl) => Option::Some(RenameRules::Field(tbl, ident)),
                        Option::None => Option::None,
                    }
                } else {
                    Option::Some(RenameRules::Enum(ident))
                }
            } else {
                if matches!(tree.nodes[node].label, Option::Some(FieldLabel::TableRef)) {
                    Option::Some(RenameRules::Table(ident))
                } else if matches!(tree.nodes[node].label, Option::Some(FieldLabel::FieldRef)) {
                    match tree.child_by_label(a, FieldLabel::TableRef) {
                        Option::Some(c) => Option::Some(
                            RenameRules::Field(tree.node_text(source, c), ident),
                        ),
                        Option::None => Option::None,
                    }
                } else {
                    Option::None
                }
            }
        },
    }
}

/// Decides whether node `j` is rewritten under `role`.
fn matches_role(source: &str, tree: &SyntaxTree, j: usize, role: &RenameRules) -> (b: bool)
    requires
        tree.wf(),
        j < tree.nodes@.len(),
    ensures
        b == role_match(*tree, source@, role_view(*role), j as int),
{
    let parent = match tree.nodes[j].parent {
        Option::Some(p) => {
            proof {
                if j as int >= 1 {
                    assert(0 <= tree.parent_of(j as int) < j as int);
                }
            }
            p
        },
        Option::None => {
            return false;
        },
    };
    match role {
        RenameRules::Table(name) => {
            if !matches!(tree.nodes[j].kind, NodeKind::Identifier) {
                return false;
            }
            let as_definition = matches!(tree.nodes[j].label, Option::Some(FieldLabel::Name))
                && matches!(tree.nodes[parent].kind, NodeKind::TableDefinition);
            let as_reference = matches!(tree.nodes[j].label, Option::Some(FieldLabel::TableRef))
                && matches!(tree.nodes[parent].kind, NodeKind::TableField);
            if !(as_definition || as_reference) {
                return false;
            }
            let text = tree.node_text(source, j);
            text == *name
        },
        RenameRules::Field(table, name) => {
            if !matches!(tree.nodes[j].kind, NodeKind::Identifier) {
                return false;
            }
            if matches!(tree.nodes[parent].kind, NodeKind::TableDefinition) {
                return false;
            }
            let as_declaration = matches!(tree.nodes[j].label, Option::Some(FieldLabel::Name))
                && matches!(tree.nodes[parent].kind, NodeKind::FieldDeclaration);
            let as_reference = matches!(tree.nodes[j].label, Option::Some(FieldLabel::FieldRef))
                && matches!(tree.nodes[parent].kind, NodeKind::TableField);
            if as_declaration {
                let owner = node_parent_identifier(
                    source,
                    tree,
                    j,
                    NodeKind::TableDefinition,
                    FieldLabel::Name,
                );
                let owner_matches = match owner {
                    Option::Some(o) => o == *table,
                    Option::None => false,
                };
                if owner_matches {
                    let text = tree.node_text(source, j);
                    return text == *name;
                }
            }
            if as_reference {
                let text = tree.node_text(source, j);
                return text == *name;
            }
            false
        },
        RenameRules::Enum(name) => {
            if !matches!(tree.nodes[j].label, Option::Some(FieldLabel::TypeRef)) {
                return false;
            }
            if !matches!(tree.nodes[parent].kind, NodeKind::FieldDeclaration) {
                return false;
            }
            let text = tree.node_text(source, j);
            text == *name
        },
    }
}

/// Resolves a rename request: classifies the identifier under the cursor
/// and produces the replace-edit set for its role, or a refusal.
pub fn rename(
    source: &str,
    tree: &SyntaxTree,
    edit_position: Position,
    new_name: String,
    file_location: String,
) -> (r: Option<WorkspaceEdit>)
    requires
        tree.wf(),
    ensures
        match r {
            Option::Some(w) => rename_spec(
                *tree,
                source@,
                Point { row: edit_position.line, column: edit_position.character },
                new_name@,
                file_location@,
            ) == Option::Some(workspace_edit_view(w)),
            Option::None => rename_spec(
                *tree,
                source@,
                Point { row: edit_position.line, column: edit_position.character },
                new_name@,
                file_location@,
            ) is None,
        },
{
    let point_conversion = Point::from(edit_position);
    let current_node = tree.descendant_at(point_conversion, false);

    // we can only rename when the cursor sits on an identifier token
    if !matches!(tree.nodes[current_node].kind, NodeKind::Identifier) {
        return Option::None;
    }

    let role = match classify_role(source, tree, current_node) {
        Option::None => {
            return Option::None;
        },
        Option::Some(rr) => rr,
    };

    let n = tree.nodes.len();
    let mut current_doc_changes: Vec<TextEdit> = Vec::new();
    let mut j: usize = 0;
    while j < n
        invariant
            tree.wf(),
            n == tree.nodes@.len(),
            j <= n,
            current_doc_changes@.map_values(|e: TextEdit| e@) == rename_edits(
                *tree,
                source@,
                role_view(role),
                new_name@,
                j as int,
            ),
        decreases n - j,
    {
        let ghost prev = current_doc_changes@;
        if matches_role(source, tree, j, &role) {
            let edit = TextEdit {
                range: Range::from((tree.nodes[j].start, tree.nodes[j].end)),
                new_text: new_name.clone(),
            };
            current_doc_changes.push(edit);
            proof {
                assert(current_doc_changes@.map_values(|e: TextEdit| e@) =~= prev.map_values(
                    |e: TextEdit| e@,
                ).push(
                    TextEditV { range: range_of(*tree, j as int), new_text: new_name@ },
                ));
            }
        }
        j = j + 1;
    }
    Option::Some(WorkspaceEdit { document: file_location, changes: current_doc_changes })
}

/// Substitutes `pattern` for every placeholder pair `{}` in each rule,
/// left to right, without rescanning the substituted text. The pattern is
/// spliced in verbatim: an identifier holding characters significant to
/// the pattern language is not escaped here.
pub fn replace_rule_with_pattern(rule: &[&str], pattern: &str) -> (r: Vec<String>)
    ensures
        r@.len() == rule@.len(),
        forall|i: int|
            0 <= i < rule@.len() ==> r@[i]@ == replace_placeholder(rule@[i]@, pattern@),
{
    let n = rule.len();
    let mut out: Vec<String> = Vec::new();
    let mut i: usize = 0;
    while i < n
        invariant
            n == rule@.len(),
            i <= n,
            out@.len() == i,
            forall|a: int|
                0 <= a < i ==> out@[a]@ == replace_placeholder(rule@[a]@, pattern@),
        decreases n - i,
    {
        let s = rule[i];
        out.push(replace_one(s, pattern));
        i = i + 1;
    }
    out
}

/// `s` with every placeholder pair `{}` replaced by `pat`, left to right.
pub open spec fn replace_placeholder(s: Seq<char>, pat: Seq<char>) -> Seq<char>
    decreases s.len(),
{
    if s.len() >= 2 && s[0] == '{' && s[1] == '}' {
        pat + replace_placeholder(s.skip(2), pat)
    } else if s.len() >= 1 {
        seq![s[0]] + replace_placeholder(s.skip(1), pat)
    } else {
        Seq::empty()
    }
}

fn replace_one(s: &str, pattern: &str) -> (r: String)
    ensures
        r@ == replace_placeholder(s@, pattern@),
{
    let n = s.unicode_len();
    let mut out = String::new();
    proof {
        assert(s@.skip(0) =~= s@);
        assert(out@ + replace_placeholder(s@, pattern@) =~= replace_placeholder(s@, pattern@));
    }
    let mut i: usize = 0;
    while i < n
        invariant
            i <= n,
            n == s@.len(),
            out@ + replace_placeholder(s@.skip(i as int), pattern@) == replace_placeholder(
                s@,
                pattern@,
            ),
        decreases n - i,
    {
        let ghost out0 = out@;
        if i + 1 < n && s.get_char(i) == '{' && s.get_char(i + 1) == '}' {
            out.append(pattern);
            proof {
                assert(s@.skip(i as int).len() >= 2);
                assert(s@.skip(i as int)[0] == '{');
                assert(s@.skip(i as int)[1] == '}');
                assert(s@.skip(i as int).skip(2) =~= s@.skip(i as int + 2));
                assert((out0 + pattern@) + replace_placeholder(s@.skip(i as int + 2), pattern@)
                    =~= out0 + (pattern@ + replace_placeholder(s@.skip(i as int + 2), pattern@)));
            }
            i = i + 2;
        } else {
            let piece = s.substring_char(i, i + 1);
            out.append(piece);
            proof {
                assert(piece@ =~= seq![s@[i as int]]);
                assert(s@.skip(i as int).len() >= 1);
                assert(s@.skip(i as int)[0] == s@[i as int]);
                assert(s@.skip(i as int).skip(1) =~= s@.skip(i as int + 1));
                assert((out0 + piece@) + replace_placeholder(s@.skip(i as int + 1), pattern@)
                    =~= out0 + (seq![s@[i as int]] + replace_placeholder(
                    s@.skip(i as int + 1),
                    pattern@,
                )));
            }
            i = i + 1;
        }
    }
    proof {
        assert(s@.skip(n as int) =~= Seq::<char>::empty());
        assert(out@ + Seq::<char>::empty() =~= out@);
    }
    out
}

} // verus!
