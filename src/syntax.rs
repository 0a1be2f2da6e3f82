//! A concrete syntax tree held as plain values: what extraction reads of each node.
use vstd::prelude::*;

verus! {

/// One node of a parsed file.
///
/// Offsets `start` and `end` count characters of the source text; rows and
/// columns are zero-based, as the parser reports them.
pub struct SyntaxNode {
    /// The grammar's kind tag (`class_declaration`, `name`, `comment`, ...).
    pub kind: String,
    /// The field under which the node stands in its parent, if any.
    pub field: Option<String>,
    /// Whether the grammar marks the node as extra (it may stand anywhere).
    pub is_extra: bool,
    pub start: usize,
    pub end: usize,
    pub start_row: usize,
    pub start_column: usize,
    pub end_row: usize,
    pub end_column: usize,
    /// Indices of the children, in source order.
    pub children: Vec<usize>,
    /// Index of the sibling just before this node, if any.
    pub prev_sibling: Option<usize>,
}

/// The nodes of one file, in pre-order: a node's earlier siblings precede it.
pub struct SyntaxTree {
    pub nodes: Vec<SyntaxNode>,
}

impl SyntaxTree {
    pub open spec fn node_wf(&self, i: int) -> bool {
        let n = self.nodes@[i];
        &&& forall|k: int|
            0 <= k < n.children@.len() ==> (#[trigger] n.children@[k]) < self.nodes@.len()
        &&& (n.prev_sibling matches Some(p) ==> p < i)
        &&& n.start_row <= n.end_row < usize::MAX
    }

    /// Every index that a node holds names a node; siblings come in order; rows are ordered.
    pub open spec fn wf(&self) -> bool {
        forall|i: int| 0 <= i < self.nodes@.len() ==> #[trigger] self.node_wf(i)
    }

    pub open spec fn kind(&self, i: int) -> Seq<char> {
        self.nodes@[i].kind@
    }

    pub open spec fn children(&self, i: int) -> Seq<usize> {
        self.nodes@[i].children@
    }

    pub open spec fn has_field(&self, c: int, f: Seq<char>) -> bool {
        self.nodes@[c].field matches Some(g) && g@ == f
    }

    /// The source text that node `i` spans, where its offsets lie within `src`.
    pub open spec fn text(&self, i: int, src: Seq<char>) -> Option<Seq<char>> {
        let n = self.nodes@[i];
        if n.start <= n.end && n.end <= src.len() {
            Some(src.subrange(n.start as int, n.end as int))
        } else {
            None
        }
    }

    /// The first child of `i`, from position `k` on, that stands under field `f`.
    pub open spec fn field_child_from(&self, i: int, k: int, f: Seq<char>) -> Option<usize>
        decreases self.children(i).len() - k,
    {
        if 0 <= k < self.children(i).len() {
            if self.has_field(self.children(i)[k] as int, f) {
                Some(self.children(i)[k])
            } else {
                self.field_child_from(i, k + 1, f)
            }
        } else {
            None
        }
    }

    /// The first child of `i` that stands under field `f`.
    pub open spec fn field_child(&self, i: int, f: Seq<char>) -> Option<usize> {
        self.field_child_from(i, 0, f)
    }

    /// The first child of `i`, from position `k` on, of kind `kind`.
    pub open spec fn kind_child_from(&self, i: int, k: int, kind: Seq<char>) -> Option<usize>
        decreases self.children(i).len() - k,
    {
        if 0 <= k < self.children(i).len() {
            if self.kind(self.children(i)[k] as int) == kind {
                Some(self.children(i)[k])
            } else {
                self.kind_child_from(i, k + 1, kind)
            }
        } else {
            None
        }
    }

    /// The first child of `i` of kind `kind`.
    pub open spec fn kind_child(&self, i: int, kind: Seq<char>) -> Option<usize> {
        self.kind_child_from(i, 0, kind)
    }

    /// The text of the child that `c` names, if both exist.
    pub open spec fn text_of_child(&self, c: Option<usize>, src: Seq<char>) -> Option<Seq<char>> {
        match c {
            Some(j) => self.text(j as int, src),
            None => None,
        }
    }

    /// The first child of `i` that stands under field `f`.
    pub fn child_by_field_name(&self, i: usize, f: &str) -> (r: Option<usize>)
        requires
            self.wf(),
            i < self.nodes@.len(),
        ensures
            r == self.field_child(i as int, f@),
            r matches Some(c) ==> c < self.nodes@.len(),
    {
        let node = &self.nodes[i];
        assert(self.node_wf(i as int));
        let mut k: usize = 0;
        while k < node.children.len()
            invariant
                self.wf(),
                i < self.nodes@.len(),
                node == self.nodes@[i as int],
                k <= node.children@.len(),
                self.field_child(i as int, f@) == self.field_child_from(i as int, k as int, f@),
            decreases node.children@.len() - k,
        {
            let c = node.children[k];
            assert(self.node_wf(i as int));
            let hit = match &self.nodes[c].field {
                Some(g) => crate::text::same_text(g.as_str(), f),
                None => false,
            };
            if hit {
                return Some(c);
            }
            k += 1;
        }
        None
    }

    /// The first child of `i` of kind `kind`.
    pub fn find_child_by_kind(&self, i: usize, kind: &str) -> (r: Option<usize>)
        requires
            self.wf(),
            i < self.nodes@.len(),
        ensures
            r == self.kind_child(i as int, kind@),
            r matches Some(c) ==> c < self.nodes@.len(),
    {
        let node = &self.nodes[i];
        assert(self.node_wf(i as int));
        let mut k: usize = 0;
        while k < node.children.len()
            invariant
                self.wf(),
                i < self.nodes@.len(),
                node == self.nodes@[i as int],
                k <= node.children@.len(),
                self.kind_child(i as int, kind@) == self.kind_child_from(i as int, k as int, kind@),
            decreases node.children@.len() - k,
        {
            let c = node.children[k];
            assert(self.node_wf(i as int));
            if crate::text::same_text(self.nodes[c].kind.as_str(), kind) {
                return Some(c);
            }
            k += 1;
        }
        None
    }

    /// The source text that node `i` spans, where its offsets lie within `src`.
    pub fn node_text<'a>(&self, i: usize, src: &'a str) -> (r: Option<&'a str>)
        requires
            i < self.nodes@.len(),
        ensures
            r is Some == self.text(i as int, src@) is Some,
            r matches Some(t) ==> self.text(i as int, src@) == Some(t@),
    {
        let n = &self.nodes[i];
        if n.start <= n.end && n.end <= src.unicode_len() {
            Some(src.substring_char(n.start, n.end))
        } else {
            None
        }
    }
}

} // verus!
