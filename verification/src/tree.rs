//! The syntax-tree model.
//!
//! The external parsing engine produces a structural tree over the source
//! text; this module holds the crate's own representation of such a tree:
//! a flat arena of nodes in preorder, each carrying its grammar-rule kind,
//! the field label under which its parent holds it, its point range, its
//! parent index and its child indices. The embedding converts the engine's
//! tree into this shape; everything the crate computes from a tree is
//! verified against the well-formedness predicate [`SyntaxTree::wf`].
//!
//! Grammar-rule kinds that none of the analyses distinguish are collapsed
//! into [`NodeKind::Other`]; a node's raw text is not stored but read from
//! the source at the node's range.

use vstd::prelude::*;

use crate::text::{lemma_pos_index_bounds, slice_at, slice_text};
use crate::wrappers::{point_le, point_le_exec, point_lt, point_lt_exec, Point};

verus! {

/// Grammar-rule kind of a node. Kinds that the analyses never test for are
/// collapsed into `Other`.
#[derive(Clone, Copy, Debug, PartialEq, Eq, Structural)]
pub enum NodeKind {
    /// The document root.
    ProjectFile,
    TableDefinition,
    FieldDeclarationList,
    FieldDeclaration,
    FieldAttributeList,
    EnumDefinition,
    /// A table-field reference inside a relationship.
    TableField,
    /// A relationship cardinality operator.
    CardinalityOp,
    Identifier,
    Other,
}

/// Field label under which a parent holds a child, where the grammar names
/// the child.
#[derive(Clone, Copy, Debug, PartialEq, Eq, Structural)]
pub enum FieldLabel {
    /// The declared name of a definition.
    Name,
    /// The alias of a table definition.
    Alias,
    /// The table side of a table-field reference.
    TableRef,
    /// The field side of a table-field reference.
    FieldRef,
    /// The declared type of a field declaration.
    TypeRef,
}

/// One node of the arena.
#[derive(Clone, Debug)]
pub struct Node {
    pub kind: NodeKind,
    /// Whether the node is a named grammar rule rather than a bare token.
    pub named: bool,
    /// The field label the parent holds this node under, if any.
    pub label: Option<FieldLabel>,
    pub start: Point,
    pub end: Point,
    /// Arena index of the parent; the root has none.
    pub parent: Option<usize>,
    /// Arena indices of the children, in source order.
    pub children: Vec<usize>,
}

/// A whole tree: nodes in preorder, the root at index 0.
#[derive(Clone, Debug)]
pub struct SyntaxTree {
    pub nodes: Vec<Node>,
}

/// A node's range contains a query point: the point lies strictly after the
/// node's start and no later than its end. With sibling ranges that do not
/// overlap, at most one sibling contains any query point, and a point on
/// the boundary between two tokens belongs to the earlier one — which is
/// what cursor classification wants, since an editing cursor sits just
/// after the character it produced.
pub open spec fn node_contains(n: Node, p: Point) -> bool {
    point_lt(n.start, p) && point_le(p, n.end)
}

impl SyntaxTree {
    pub open spec fn len(self) -> int {
        self.nodes@.len() as int
    }

    pub open spec fn node(self, i: int) -> Node {
        self.nodes@[i]
    }

    /// Parent index of node `i`, or -1 for the root.
    pub open spec fn parent_of(self, i: int) -> int {
        match self.node(i).parent {
            Option::Some(p) => p as int,
            Option::None => -1,
        }
    }

    pub open spec fn num_children(self, i: int) -> int {
        self.node(i).children@.len() as int
    }

    /// Index of the `j`-th child of node `i`.
    pub open spec fn child_of(self, i: int, j: int) -> int {
        self.node(i).children@[j] as int
    }

    /// A non-root node appears in its parent's child list.
    pub open spec fn is_linked(self, i: int) -> bool {
        exists|j: int|
            0 <= j < self.num_children(self.parent_of(i)) && #[trigger] self.child_of(
                self.parent_of(i),
                j,
            ) == i
    }

    /// Well-formedness of the arena: one root at index 0, parent indices
    /// strictly decreasing, child lists consistent with parent links and in
    /// source order, with sibling ranges that do not overlap.
    pub open spec fn wf(self) -> bool {
        &&& self.len() >= 1
        &&& self.node(0).parent is None
        &&& self.node(0).kind == NodeKind::ProjectFile
        &&& forall|i: int| #![trigger self.node(i)]
            1 <= i < self.len() ==> self.node(i).parent is Some && 0 <= self.parent_of(i) < i
        &&& forall|i: int, j: int|
            0 <= i < self.len() && 0 <= j < self.num_children(i) ==> i < #[trigger] self.child_of(
                i,
                j,
            ) < self.len() && self.parent_of(self.child_of(i, j)) == i
        &&& forall|i: int, j1: int, j2: int|
            0 <= i < self.len() && 0 <= j1 < j2 < self.num_children(i) ==> #[trigger] self.child_of(
                i,
                j1,
            ) < #[trigger] self.child_of(i, j2) && point_le(
                self.node(self.child_of(i, j1)).end,
                self.node(self.child_of(i, j2)).start,
            )
        &&& forall|i: int| 1 <= i < self.len() ==> #[trigger] self.is_linked(i)
    }

    /// The text of node `i`.
    pub open spec fn text_of(self, src: Seq<char>, i: int) -> Seq<char> {
        slice_at(src, self.node(i).start, self.node(i).end)
    }

    /// The `j`-th child of `i` contains `p` and, when `named_only` is set,
    /// is a named node.
    pub open spec fn is_hit_at(self, i: int, p: Point, named_only: bool, j: int) -> bool {
        node_contains(self.node(self.child_of(i, j)), p) && (named_only
            ==> self.node(self.child_of(i, j)).named)
    }

    /// `c` is a child of `i` that contains `p` (and is named, when asked).
    pub open spec fn is_hit_child(self, i: int, p: Point, named_only: bool, c: int) -> bool {
        exists|j: int|
            0 <= j < self.num_children(i) && #[trigger] self.child_of(i, j) == c && self.is_hit_at(
                i,
                p,
                named_only,
                j,
            )
    }

    /// At most one child of `i` contains `p`: sibling ranges do not overlap,
    /// and containment starts strictly after a node's start.
    pub proof fn lemma_hit_child_unique(
        self,
        i: int,
        p: Point,
        named_only: bool,
        c1: int,
        c2: int,
    )
        requires
            self.wf(),
            0 <= i < self.len(),
            self.is_hit_child(i, p, named_only, c1),
            self.is_hit_child(i, p, named_only, c2),
        ensures
            c1 == c2,
    {
        let j1 = choose|j: int|
            0 <= j < self.num_children(i) && #[trigger] self.child_of(i, j) == c1
                && self.is_hit_at(i, p, named_only, j);
        let j2 = choose|j: int|
            0 <= j < self.num_children(i) && #[trigger] self.child_of(i, j) == c2
                && self.is_hit_at(i, p, named_only, j);
        if j1 < j2 {
            assert(point_le(self.node(c1).end, self.node(c2).start));
            assert(false);
        } else if j2 < j1 {
            assert(point_le(self.node(c2).end, self.node(c1).start));
            assert(false);
        }
    }

    /// Index of the deepest node reachable from `i` through children that
    /// contain `p` (named children only, when asked): the node the cursor
    /// sits in, at the finest granularity the tree offers.
    pub open spec fn descend_from(self, i: int, p: Point, named_only: bool) -> int
        decreases self.len() - i
            when self.wf() && 0 <= i < self.len()
    {
        if exists|c: int| self.is_hit_child(i, p, named_only, c) {
            self.descend_from(
                choose|c: int| self.is_hit_child(i, p, named_only, c),
                p,
                named_only,
            )
        } else {
            i
        }
    }

    /// The child of `i` containing `p`, if any.
    fn hit_child(&self, i: usize, p: Point, named_only: bool) -> (r: Option<usize>)
        requires
            self.wf(),
            i < self.nodes@.len(),
        ensures
            match r {
                Option::Some(c) => self.is_hit_child(i as int, p, named_only, c as int) && (i as int)
                    < c < self.len(),
                Option::None => !exists|c: int| self.is_hit_child(i as int, p, named_only, c),
            },
    {
        let n = self.nodes[i].children.len();
        let mut j: usize = 0;
        while j < n
            invariant
                self.wf(),
                i < self.nodes@.len(),
                n == self.num_children(i as int),
                j <= n,
                forall|jj: int| 0 <= jj < j ==> !self.is_hit_at(i as int, p, named_only, jj),
            decreases n - j,
        {
            let c = self.nodes[i].children[j];
            assert(c == self.child_of(i as int, j as int));
            assert((i as int) < c < self.len());
            let nd = &self.nodes[c];
            if point_lt_exec(nd.start, p) && point_le_exec(p, nd.end) && (!named_only
                || nd.named) {
                return Option::Some(c);
            }
            j = j + 1;
        }
        proof {
            if exists|c: int| self.is_hit_child(i as int, p, named_only, c) {
                let c = choose|c: int| self.is_hit_child(i as int, p, named_only, c);
                let jj = choose|jj: int|
                    0 <= jj < self.num_children(i as int) && #[trigger] self.child_of(
                        i as int,
                        jj,
                    ) == c && self.is_hit_at(i as int, p, named_only, jj);
                assert(!self.is_hit_at(i as int, p, named_only, jj));
            }
        }
        Option::None
    }

    /// The deepest node containing `p`, descending from the root; with
    /// `named_only`, the deepest named such node. When nothing below the
    /// root contains `p`, the root itself.
    pub fn descendant_at(&self, p: Point, named_only: bool) -> (r: usize)
        requires
            self.wf(),
        ensures
            r == self.descend_from(0, p, named_only),
            r < self.nodes@.len(),
    {
        let mut cur: usize = 0;
        loop
            invariant
                self.wf(),
                cur < self.nodes@.len(),
                self.descend_from(0, p, named_only) == self.descend_from(
                    cur as int,
                    p,
                    named_only,
                ),
            decreases self.nodes@.len() - cur,
        {
            match self.hit_child(cur, p, named_only) {
                Option::Some(c) => {
                    proof {
                        let cs = choose|cc: int|
                            self.is_hit_child(cur as int, p, named_only, cc);
                        self.lemma_hit_child_unique(cur as int, p, named_only, c as int, cs);
                    }
                    cur = c;
                },
                Option::None => {
                    return cur;
                },
            }
        }
    }

    /// Position of node `i` in its parent's child list.
    pub open spec fn child_pos(self, i: int) -> int {
        choose|j: int|
            0 <= j < self.num_children(self.parent_of(i)) && #[trigger] self.child_of(
                self.parent_of(i),
                j,
            ) == i
    }

    /// The sibling just before `i` in source order, or -1 when `i` is the
    /// root or its parent's first child.
    pub open spec fn prev_sibling_of(self, i: int) -> int {
        if i == 0 {
            -1
        } else {
            let j = self.child_pos(i);
            if j == 0 {
                -1
            } else {
                self.child_of(self.parent_of(i), j - 1)
            }
        }
    }

    /// The sibling just after `i` in source order, or -1 when there is none.
    pub open spec fn next_sibling_of(self, i: int) -> int {
        if i == 0 {
            -1
        } else {
            let j = self.child_pos(i);
            if j + 1 < self.num_children(self.parent_of(i)) {
                self.child_of(self.parent_of(i), j + 1)
            } else {
                -1
            }
        }
    }

    /// Parent index of a non-root node.
    fn parent_index(&self, i: usize) -> (p: usize)
        requires
            self.wf(),
            1 <= i < self.nodes@.len(),
        ensures
            p as int == self.parent_of(i as int),
            p < self.nodes@.len(),
    {
        proof {
            assert(0 <= self.parent_of(i as int) < i as int);
        }
        match self.nodes[i].parent {
            Option::Some(p) => p,
            Option::None => {
                proof {
                    assert(false);
                }
                0
            },
        }
    }

    /// Finds node `i`'s position in its parent's child list.
    fn position_in_parent(&self, i: usize) -> (r: usize)
        requires
            self.wf(),
            1 <= i < self.nodes@.len(),
        ensures
            r == self.child_pos(i as int),
            0 <= self.child_pos(i as int) < self.num_children(self.parent_of(i as int)),
            self.child_of(self.parent_of(i as int), r as int) == i as int,
    {
        let p = self.parent_index(i);
        let n = self.nodes[p].children.len();
        let mut j: usize = 0;
        while j < n
            invariant
                self.wf(),
                1 <= i < self.nodes@.len(),
                p == self.parent_of(i as int),
                0 <= p < self.nodes@.len(),
                n == self.num_children(p as int),
                j <= n,
                forall|jj: int| 0 <= jj < j ==> self.child_of(p as int, jj) != i as int,
            decreases n - j,
        {
            if self.nodes[p].children[j] == i {
                proof {
                    assert(self.is_linked(i as int));
                    let js = self.child_pos(i as int);
                    assert(0 <= js < self.num_children(p as int) && self.child_of(p as int, js)
                        == i as int);
                    if js != j as int {
                        assert(self.child_of(p as int, js) < self.child_of(p as int, j as int)
                            || self.child_of(p as int, j as int) < self.child_of(p as int, js));
                    }
                }
                return j;
            }
            j = j + 1;
        }
        proof {
            assert(self.is_linked(i as int));
            let js = choose|jj: int|
                0 <= jj < self.num_children(self.parent_of(i as int)) && #[trigger] self.child_of(
                    self.parent_of(i as int),
                    jj,
                ) == i as int;
            assert(self.child_of(p as int, js) == i as int);
            assert(false);
        }
        0
    }

    /// The sibling just before `i` in source order.
    pub fn prev_sibling(&self, i: usize) -> (r: Option<usize>)
        requires
            self.wf(),
            i < self.nodes@.len(),
        ensures
            match r {
                Option::Some(s) => self.prev_sibling_of(i as int) == s as int && s
                    < self.nodes@.len(),
                Option::None => self.prev_sibling_of(i as int) == -1,
            },
    {
        if i == 0 {
            return Option::None;
        }
        let j = self.position_in_parent(i);
        if j == 0 {
            Option::None
        } else {
            let p = self.parent_index(i);
            let s = self.nodes[p].children[j - 1];
            proof {
                assert(self.child_of(p as int, j as int - 1) == s as int);
            }
            Option::Some(s)
        }
    }

    /// The sibling just after `i` in source order.
    pub fn next_sibling(&self, i: usize) -> (r: Option<usize>)
        requires
            self.wf(),
            i < self.nodes@.len(),
        ensures
            match r {
                Option::Some(s) => self.next_sibling_of(i as int) == s as int && s
                    < self.nodes@.len(),
                Option::None => self.next_sibling_of(i as int) == -1,
            },
    {
        if i == 0 {
            return Option::None;
        }
        let j = self.position_in_parent(i);
        let p = self.parent_index(i);
        let n = self.nodes[p].children.len();
        assert(j < n);
        if j + 1 < n {
            let s = self.nodes[p].children[j + 1];
            proof {
                assert(self.child_of(p as int, j as int + 1) == s as int);
            }
            Option::Some(s)
        } else {
            Option::None
        }
    }

    /// First child of `i` held under label `l`, scanning from position `j`;
    /// -1 when there is none.
    pub open spec fn child_with_label_from(self, i: int, j: int, l: FieldLabel) -> int
        decreases self.num_children(i) - j
            when self.wf() && 0 <= i < self.len() && 0 <= j
    {
        if j >= self.num_children(i) {
            -1
        } else if self.node(self.child_of(i, j)).label == Option::Some(l) {
            self.child_of(i, j)
        } else {
            self.child_with_label_from(i, j + 1, l)
        }
    }

    /// First child of `i` held under label `l`, or -1.
    pub open spec fn child_with_label(self, i: int, l: FieldLabel) -> int {
        self.child_with_label_from(i, 0, l)
    }

    /// Looks up the first child of `i` held under field label `l`.
    pub fn child_by_label(&self, i: usize, l: FieldLabel) -> (r: Option<usize>)
        requires
            self.wf(),
            i < self.nodes@.len(),
        ensures
            match r {
                Option::Some(c) => self.child_with_label(i as int, l) == c as int && c
                    < self.nodes@.len(),
                Option::None => self.child_with_label(i as int, l) == -1,
            },
    {
        let n = self.nodes[i].children.len();
        let mut j: usize = 0;
        while j < n
            invariant
                self.wf(),
                i < self.nodes@.len(),
                n == self.num_children(i as int),
                j <= n,
                self.child_with_label(i as int, l) == self.child_with_label_from(
                    i as int,
                    j as int,
                    l,
                ),
            decreases n - j,
        {
            let c = self.nodes[i].children[j];
            assert(c == self.child_of(i as int, j as int));
            let has = match self.nodes[c].label {
                Option::Some(lab) => lab == l,
                Option::None => false,
            };
            if has {
                return Option::Some(c);
            }
            j = j + 1;
        }
        Option::None
    }

    /// Nearest ancestor of `i` whose kind is `k`, walking upward and giving
    /// up at the document root; -1 when none is found before the root.
    pub open spec fn ancestor_of_kind(self, i: int, k: NodeKind) -> int
        decreases i
            when self.wf() && 0 <= i < self.len()
    {
        let p = self.parent_of(i);
        if p < 0 {
            -1
        } else if self.node(p).kind == k {
            p
        } else if self.node(p).kind == NodeKind::ProjectFile {
            -1
        } else {
            self.ancestor_of_kind(p, k)
        }
    }

    /// Walks upward from `i` to the nearest ancestor of kind `k`, giving up
    /// at the document root.
    pub fn find_ancestor_of_kind(&self, i: usize, k: NodeKind) -> (r: Option<usize>)
        requires
            self.wf(),
            i < self.nodes@.len(),
        ensures
            match r {
                Option::Some(a) => self.ancestor_of_kind(i as int, k) == a as int && a
                    < self.nodes@.len(),
                Option::None => self.ancestor_of_kind(i as int, k) == -1,
            },
    {
        let mut cur = i;
        loop
            invariant
                self.wf(),
                cur < self.nodes@.len(),
                self.ancestor_of_kind(i as int, k) == self.ancestor_of_kind(cur as int, k),
            decreases cur,
        {
            match self.nodes[cur].parent {
                Option::None => {
                    return Option::None;
                },
                Option::Some(p) => {
                    assert(p == self.parent_of(cur as int));
                    if self.nodes[p].kind == k {
                        return Option::Some(p);
                    }
                    if self.nodes[p].kind == NodeKind::ProjectFile {
                        return Option::None;
                    }
                    cur = p;
                },
            }
        }
    }

    /// Decides well-formedness at run time, so that an embedding which
    /// received a tree from outside can test the shape every tree-consuming
    /// function assumes, and refuse the tree instead of calling on it.
    pub fn is_well_formed(&self) -> (b: bool)
        ensures
            b == self.wf(),
    {
        let n = self.nodes.len();
        if n == 0 {
            return false;
        }
        if !matches!(self.nodes[0].parent, Option::None) {
            return false;
        }
        if !matches!(self.nodes[0].kind, NodeKind::ProjectFile) {
            return false;
        }
        let mut i: usize = 1;
        while i < n
            invariant
                1 <= i <= n,
                n == self.nodes@.len(),
                forall|ii: int| #![trigger self.node(ii)]
                    1 <= ii < i ==> self.node(ii).parent is Some && 0 <= self.parent_of(ii) < ii,
            decreases n - i,
        {
            let par = self.nodes[i].parent;
            proof {
                assert(par == self.node(i as int).parent);
            }
            match par {
                Option::Some(p) => {
                    if p >= i {
                        proof {
                            if self.wf() {
                                assert(0 <= self.parent_of(i as int) < i as int);
                                assert(false);
                            }
                        }
                        return false;
                    }
                    proof {
                        assert(self.parent_of(i as int) == p as int);
                    }
                },
                Option::None => {
                    proof {
                        if self.wf() {
                            assert(0 <= self.parent_of(i as int) < i as int);
                            assert(false);
                        }
                    }
                    return false;
                },
            }
            proof {
                assert forall|ii: int| #![trigger self.node(ii)]
                    1 <= ii < i + 1 implies self.node(ii).parent is Some && 0 <= self.parent_of(
                    ii,
                ) < ii by {
                    if ii == i as int {
                        assert(self.node(i as int).parent is Some);
                        assert(0 <= self.parent_of(i as int) < i as int);
                    }
                }
            }
            i = i + 1;
        }
        let mut i: usize = 0;
        while i < n
            invariant
                i <= n,
                n == self.nodes@.len(),
                forall|ii: int, jj: int|
                    0 <= ii < i && 0 <= jj < self.num_children(ii) ==> ii
                        < #[trigger] self.child_of(ii, jj) < self.len() && self.parent_of(
                        self.child_of(ii, jj),
                    ) == ii,
                forall|ii: int, j1: int, j2: int|
                    0 <= ii < i && 0 <= j1 < j2 < self.num_children(ii)
                        ==> #[trigger] self.child_of(ii, j1) < #[trigger] self.child_of(ii, j2)
                        && point_le(
                        self.node(self.child_of(ii, j1)).end,
                        self.node(self.child_of(ii, j2)).start,
                    ),
            decreases n - i,
        {
            let m = self.nodes[i].children.len();
            let mut j2: usize = 0;
            while j2 < m
                invariant
                    i < n,
                    j2 <= m,
                    n == self.nodes@.len(),
                    m == self.num_children(i as int),
                    forall|jj: int|
                        0 <= jj < j2 ==> i < #[trigger] self.child_of(i as int, jj) < self.len()
                            && self.parent_of(self.child_of(i as int, jj)) == i as int,
                    forall|j1: int, jj2: int|
                        0 <= j1 < jj2 < j2 ==> #[trigger] self.child_of(i as int, j1)
                            < #[trigger] self.child_of(i as int, jj2) && point_le(
                            self.node(self.child_of(i as int, j1)).end,
                            self.node(self.child_of(i as int, jj2)).start,
                        ),
                decreases m - j2,
            {
                let c = self.nodes[i].children[j2];
                proof {
                    assert(c == self.child_of(i as int, j2 as int));
                }
                let parent_ok = c > i && c < n && (match self.nodes[c].parent {
                    Option::Some(p) => p == i,
                    Option::None => false,
                });
                if !parent_ok {
                    proof {
                        if self.wf() {
                            assert((i as int) < self.child_of(i as int, j2 as int)
                                < self.len());
                            assert(self.parent_of(self.child_of(i as int, j2 as int))
                                == i as int);
                        }
                    }
                    return false;
                }
                let mut j1: usize = 0;
                while j1 < j2
                    invariant
                        i < n,
                        j1 <= j2 < m,
                        n == self.nodes@.len(),
                        m == self.num_children(i as int),
                        c == self.child_of(i as int, j2 as int),
                        c < n,
                        forall|jj1: int|
                            0 <= jj1 < j1 ==> #[trigger] self.child_of(i as int, jj1) < c as int
                                && point_le(
                                self.node(self.child_of(i as int, jj1)).end,
                                self.nodes@[c as int].start,
                            ),
                    decreases j2 - j1,
                {
                    let c1 = self.nodes[i].children[j1];
                    proof {
                        assert(c1 == self.child_of(i as int, j1 as int));
                    }
                    if !(c1 < c && c1 < n) {
                        proof {
                            if self.wf() {
                                assert(self.child_of(i as int, j1 as int) < self.child_of(
                                    i as int,
                                    j2 as int,
                                ));
                                assert((i as int) < self.child_of(i as int, j1 as int)
                                    < self.len());
                            }
                        }
                        return false;
                    }
                    if !point_le_exec(self.nodes[c1].end, self.nodes[c].start) {
                        proof {
                            if self.wf() {
                                assert(self.child_of(i as int, j1 as int) < self.child_of(
                                    i as int,
                                    j2 as int,
                                ) && point_le(
                                    self.node(self.child_of(i as int, j1 as int)).end,
                                    self.node(self.child_of(i as int, j2 as int)).start,
                                ));
                            }
                        }
                        return false;
                    }
                    j1 = j1 + 1;
                }
                j2 = j2 + 1;
            }
            i = i + 1;
        }
        let mut i: usize = 1;
        while i < n
            invariant
                1 <= i <= n,
                n == self.nodes@.len(),
                forall|ii: int| #![trigger self.node(ii)]
                    1 <= ii < n ==> self.node(ii).parent is Some && 0 <= self.parent_of(ii) < ii,
                forall|ii: int| 1 <= ii < i ==> #[trigger] self.is_linked(ii),
            decreases n - i,
        {
            let par = self.nodes[i].parent;
            proof {
                assert(par == self.node(i as int).parent);
            }
            let p = match par {
                Option::Some(p) => p,
                Option::None => {
                    proof {
                        assert(0 <= self.parent_of(i as int));
                        assert(false);
                    }
                    0
                },
            };
            proof {
                assert(p as int == self.parent_of(i as int));
                assert(0 <= self.parent_of(i as int) < i as int);
            }
            let m = self.nodes[p].children.len();
            let mut j: usize = 0;
            let mut found = false;
            while j < m
                invariant
                    i < n,
                    p < i,
                    j <= m,
                    n == self.nodes@.len(),
                    p as int == self.parent_of(i as int),
                    m == self.num_children(p as int),
                    found ==> self.is_linked(i as int),
                    !found ==> forall|jj: int|
                        0 <= jj < j ==> #[trigger] self.child_of(p as int, jj) != i as int,
                decreases m - j,
            {
                if self.nodes[p].children[j] == i {
                    proof {
                        assert(self.child_of(p as int, j as int) == i as int);
                    }
                    found = true;
                }
                j = j + 1;
            }
            if !found {
                proof {
                    if self.wf() {
                        assert(self.is_linked(i as int));
                        let jj = choose|jj: int|
                            0 <= jj < self.num_children(self.parent_of(i as int))
                                && #[trigger] self.child_of(self.parent_of(i as int), jj)
                                == i as int;
                        assert(self.child_of(p as int, jj) == i as int);
                        assert(false);
                    }
                }
                return false;
            }
            i = i + 1;
        }
        proof {
            assert(self.wf());
        }
        true
    }

    /// Reads the text of node `i` out of the source.
    pub fn node_text(&self, source: &str, i: usize) -> (r: String)
        requires
            self.wf(),
            i < self.nodes@.len(),
        ensures
            r@ == self.text_of(source@, i as int),
    {
        proof {
            lemma_pos_index_bounds(source@, self.nodes@[i as int].start);
            lemma_pos_index_bounds(source@, self.nodes@[i as int].end);
        }
        slice_text(source, self.nodes[i].start, self.nodes[i].end)
    }
}

} // verus!
