//! The syntax tree as the formatter sees it: node ids, rows, parents, ordered
//! children and the text of each node, held in an arena.
use vstd::prelude::*;

verus! {

/// One node of the syntax tree. `parent` and `children` are arena indices.
#[derive(Debug, Clone)]
pub struct SyntaxNode {
    /// The stable id the parser gave the node.
    pub id: usize,
    /// Zero-based row where the node starts.
    pub start_row: usize,
    /// Zero-based row where the node ends.
    pub end_row: usize,
    pub parent: Option<usize>,
    /// Children in source order.
    pub children: Vec<usize>,
    /// The source text the node covers.
    pub text: String,
}

/// A syntax tree held as an arena of nodes; a parent always stands before its children.
#[derive(Debug)]
pub struct SyntaxTree {
    pub nodes: Vec<SyntaxNode>,
}

/// Node `i` of `nodes` points only backwards to its parent and forwards to its children.
pub open spec fn node_ok(nodes: Seq<SyntaxNode>, i: int) -> bool {
    &&& (nodes[i].parent matches Some(p) ==> p < i)
    &&& forall|c: int|
        0 <= c < nodes[i].children@.len() ==> i < #[trigger] nodes[i].children@[c] < nodes.len()
}

impl SyntaxTree {
    /// Every node points backwards to its parent and forwards to its children.
    pub open spec fn wf(&self) -> bool {
        forall|i: int| 0 <= i < self.nodes@.len() ==> #[trigger] node_ok(self.nodes@, i)
    }

    /// The arena index of the first leaf under node `i`.
    pub open spec fn first_leaf(&self, i: int) -> int
        decreases self.nodes@.len() - i,
    {
        if 0 <= i < self.nodes@.len() && self.nodes@[i].children@.len() > 0 {
            let c = self.nodes@[i].children@[0] as int;
            if i < c < self.nodes@.len() {
                self.first_leaf(c)
            } else {
                i
            }
        } else {
            i
        }
    }

    /// The arena index of the last leaf under node `i`.
    pub open spec fn last_leaf(&self, i: int) -> int
        decreases self.nodes@.len() - i,
    {
        if 0 <= i < self.nodes@.len() && self.nodes@[i].children@.len() > 0 {
            let c = self.nodes@[i].children@.last() as int;
            if i < c < self.nodes@.len() {
                self.last_leaf(c)
            } else {
                i
            }
        } else {
            i
        }
    }

    /// Builds a tree from its nodes, or `None` when some node's parent does not
    /// stand before it or some child does not stand after its parent.
    pub fn from_nodes(nodes: Vec<SyntaxNode>) -> (r: Option<SyntaxTree>)
        ensures
            match r {
                Some(t) => t.nodes@ == nodes@ && t.wf(),
                None => exists|k: int| 0 <= k < nodes@.len() && !#[trigger] node_ok(nodes@, k),
            },
    {
        let n = nodes.len();
        let mut i: usize = 0;
        while i < n
            invariant
                n == nodes@.len(),
                i <= n,
                forall|k: int| 0 <= k < i ==> #[trigger] node_ok(nodes@, k),
            decreases n - i,
        {
            match nodes[i].parent {
                Some(p) => {
                    if p >= i {
                        assert(!node_ok(nodes@, i as int));
                        return None;
                    }
                },
                None => {},
            }
            let mut c: usize = 0;
            while c < nodes[i].children.len()
                invariant
                    n == nodes@.len(),
                    i < n,
                    c <= nodes@[i as int].children@.len(),
                    forall|k: int|
                        0 <= k < c ==> i < #[trigger] nodes@[i as int].children@[k] < n,
                decreases nodes@[i as int].children@.len() - c,
            {
                let ch = nodes[i].children[c];
                if ch <= i || ch >= n {
                    assert(!node_ok(nodes@, i as int));
                    return None;
                }
                c = c + 1;
            }
            assert(node_ok(nodes@, i as int));
            i = i + 1;
        }
        Some(SyntaxTree { nodes })
    }

    /// The index of the first leaf under node `i`.
    pub fn first_leaf_of(&self, i: usize) -> (r: usize)
        requires
            self.wf(),
            i < self.nodes@.len(),
        ensures
            r == self.first_leaf(i as int),
            r < self.nodes@.len(),
        decreases self.nodes@.len() - i,
    {
        assert(node_ok(self.nodes@, i as int));
        if self.nodes[i].children.len() == 0 {
            i
        } else {
            self.first_leaf_of(self.nodes[i].children[0])
        }
    }

    /// The index of the last leaf under node `i`.
    pub fn last_leaf_of(&self, i: usize) -> (r: usize)
        requires
            self.wf(),
            i < self.nodes@.len(),
        ensures
            r == self.last_leaf(i as int),
            r < self.nodes@.len(),
        decreases self.nodes@.len() - i,
    {
        assert(node_ok(self.nodes@, i as int));
        let k = self.nodes[i].children.len();
        if k == 0 {
            i
        } else {
            assert(node_ok(self.nodes@, i as int));
            self.last_leaf_of(self.nodes[i].children[k - 1])
        }
    }
}

} // verus!
