//! The tree scanner: which nodes span several lines, and which nodes have line
//! breaks (or blank lines) before or after them in a depth-first walk.
use vstd::prelude::*;
use crate::tree::{SyntaxTree, node_ok};

verus! {

impl SyntaxTree {
    /// Depth-first, children in order: the arena indices of the subtree at `i`.
    pub open spec fn subtree_order(&self, i: usize) -> Seq<usize>
        decreases self.nodes@.len() - i, self.nodes@[i as int].children@.len() + 1,
    {
        if i < self.nodes@.len() {
            seq![i] + self.children_order(i, self.nodes@[i as int].children@.len() as int)
        } else {
            Seq::empty()
        }
    }

    /// The depth-first walks of the first `k` children of node `i`, one after another.
    pub open spec fn children_order(&self, i: usize, k: int) -> Seq<usize>
        decreases self.nodes@.len() - i, k,
    {
        if i < self.nodes@.len() && 0 < k <= self.nodes@[i as int].children@.len() {
            let c = self.nodes@[i as int].children@[k - 1];
            self.children_order(i, k - 1) + if i < c < self.nodes@.len() {
                self.subtree_order(c)
            } else {
                Seq::empty()
            }
        } else {
            Seq::empty()
        }
    }

    /// Appends the depth-first walk of the subtree at `i` to `out`.
    pub fn visit(&self, i: usize, out: &mut Vec<usize>)
        requires
            self.wf(),
            i < self.nodes@.len(),
        ensures
            final(out)@ == old(out)@ + self.subtree_order(i),
        decreases self.nodes@.len() - i,
    {
        let ghost start = out@;
        assert(node_ok(self.nodes@, i as int));
        out.push(i);
        let n = self.nodes[i].children.len();
        let mut k: usize = 0;
        proof {
            assert(out@ =~= start + seq![i] + self.children_order(i, 0));
        }
        while k < n
            invariant
                self.wf(),
                i < self.nodes@.len(),
                n == self.nodes@[i as int].children@.len(),
                node_ok(self.nodes@, i as int),
                k <= n,
                out@ == start + seq![i] + self.children_order(i, k as int),
            decreases n - k,
        {
            let c = self.nodes[i].children[k];
            self.visit(c, out);
            proof {
                assert(out@ =~= start + seq![i] + self.children_order(i, k + 1));
            }
            k = k + 1;
        }
        proof {
            assert(out@ =~= start + self.subtree_order(i));
        }
    }
}

proof fn lemma_subtree_in_range(t: SyntaxTree, i: usize)
    ensures
        forall|j: int|
            0 <= j < t.subtree_order(i).len() ==> #[trigger] t.subtree_order(i)[j] < t.nodes@.len(),
    decreases t.nodes@.len() - i, t.nodes@[i as int].children@.len() + 1,
{
    if i < t.nodes@.len() {
        let co = t.children_order(i, t.nodes@[i as int].children@.len() as int);
        lemma_children_in_range(t, i, t.nodes@[i as int].children@.len() as int);
        let s = t.subtree_order(i);
        assert forall|j: int| 0 <= j < s.len() implies #[trigger] s[j] < t.nodes@.len() by {
            if j > 0 {
                assert(s[j] == co[j - 1]);
            }
        }
    }
}

proof fn lemma_children_in_range(t: SyntaxTree, i: usize, k: int)
    ensures
        forall|j: int|
            0 <= j < t.children_order(i, k).len() ==> #[trigger] t.children_order(i, k)[j]
                < t.nodes@.len(),
    decreases t.nodes@.len() - i, k,
{
    if i < t.nodes@.len() && 0 < k <= t.nodes@[i as int].children@.len() {
        let c = t.nodes@[i as int].children@[k - 1];
        lemma_children_in_range(t, i, k - 1);
        let a = t.children_order(i, k - 1);
        let s = t.children_order(i, k);
        if i < c < t.nodes@.len() {
            lemma_subtree_in_range(t, c);
            let b = t.subtree_order(c);
            assert forall|j: int| 0 <= j < s.len() implies #[trigger] s[j] < t.nodes@.len() by {
                if j >= a.len() {
                    assert(s[j] == b[j - a.len()]);
                } else {
                    assert(s[j] == a[j]);
                }
            }
        } else {
            assert(s =~= a);
        }
    }
}

/// The ids of the nodes listed in `order` whose end row exceeds their start row.
pub open spec fn multi_line_ids(t: SyntaxTree, order: Seq<usize>) -> Seq<usize>
    decreases order.len(),
{
    if order.len() == 0 {
        Seq::empty()
    } else {
        let n = t.nodes@[order.last() as int];
        multi_line_ids(t, order.drop_last()) + if n.end_row > n.start_row {
            seq![n.id]
        } else {
            Seq::empty()
        }
    }
}

/// Walking `order`, the ids of each node that starts at least `min` rows after
/// the previous node ends (`.0`), and of that previous node (`.1`).
pub open spec fn break_ids(t: SyntaxTree, order: Seq<usize>, min: usize) -> (Seq<usize>, Seq<usize>)
    decreases order.len(),
{
    if order.len() < 2 {
        (Seq::empty(), Seq::empty())
    } else {
        let (b, a) = break_ids(t, order.drop_last(), min);
        let cur = t.nodes@[order.last() as int];
        let prev = t.nodes@[order[order.len() - 2] as int];
        if cur.start_row >= prev.end_row + min {
            (b.push(cur.id), a.push(prev.id))
        } else {
            (b, a)
        }
    }
}

/// The ids of the nodes under `root` that span more than one row.
pub fn detect_multi_line_nodes(t: &SyntaxTree, root: usize) -> (r: Vec<usize>)
    requires
        t.wf(),
        root < t.nodes@.len(),
    ensures
        r@ == multi_line_ids(*t, t.subtree_order(root)),
{
    let mut order: Vec<usize> = Vec::new();
    t.visit(root, &mut order);
    assert(order@ =~= t.subtree_order(root));
    proof {
        lemma_subtree_in_range(*t, root);
    }
    let mut ids: Vec<usize> = Vec::new();
    let mut k: usize = 0;
    while k < order.len()
        invariant
            t.wf(),
            k <= order@.len(),
            forall|j: int| 0 <= j < order@.len() ==> #[trigger] order@[j] < t.nodes@.len(),
            ids@ == multi_line_ids(*t, order@.subrange(0, k as int)),
        decreases order@.len() - k,
    {
        proof {
            assert(order@.subrange(0, k + 1).drop_last() =~= order@.subrange(0, k as int));
        }
        let n = &t.nodes[order[k]];
        if n.end_row > n.start_row {
            ids.push(n.id);
        }
        k = k + 1;
    }
    proof {
        assert(order@.subrange(0, k as int) =~= order@);
    }
    ids
}

/// Walks the subtree at `root` depth-first and collects the ids of the nodes
/// that start at least `minimum_line_breaks` rows after the previously visited
/// node ends (`.0`), and of those previous nodes (`.1`).
pub fn detect_line_breaks_inner(t: &SyntaxTree, root: usize, minimum_line_breaks: usize) -> (r: (
    Vec<usize>,
    Vec<usize>,
))
    requires
        t.wf(),
        root < t.nodes@.len(),
    ensures
        (r.0@, r.1@) == break_ids(*t, t.subtree_order(root), minimum_line_breaks),
{
    let mut order: Vec<usize> = Vec::new();
    t.visit(root, &mut order);
    assert(order@ =~= t.subtree_order(root));
    proof {
        lemma_subtree_in_range(*t, root);
    }
    let mut before: Vec<usize> = Vec::new();
    let mut after: Vec<usize> = Vec::new();
    let mut k: usize = 1;
    proof {
        assert(order@.subrange(0, 1) =~= seq![order@[0]]);
    }
    while k < order.len()
        invariant
            t.wf(),
            1 <= k <= order@.len(),
            forall|j: int| 0 <= j < order@.len() ==> #[trigger] order@[j] < t.nodes@.len(),
            (before@, after@) == break_ids(*t, order@.subrange(0, k as int), minimum_line_breaks),
        decreases order@.len() - k,
    {
        proof {
            assert(order@.subrange(0, k + 1).drop_last() =~= order@.subrange(0, k as int));
        }
        let cur = &t.nodes[order[k]];
        let prev = &t.nodes[order[k - 1]];
        if cur.start_row >= prev.end_row && cur.start_row - prev.end_row >= minimum_line_breaks {
            before.push(cur.id);
            after.push(prev.id);
        }
        k = k + 1;
    }
    proof {
        assert(order@.subrange(0, k as int) =~= order@);
    }
    (before, after)
}

/// The ids of the nodes under `root` preceded by a blank line.
pub fn detect_blank_lines_before(t: &SyntaxTree, root: usize) -> (r: Vec<usize>)
    requires
        t.wf(),
        root < t.nodes@.len(),
    ensures
        r@ == break_ids(*t, t.subtree_order(root), 2).0,
{
    detect_line_breaks_inner(t, root, 2).0
}

/// The ids of the nodes under `root` with a line break before them, and after them.
pub fn detect_line_break_before_and_after(t: &SyntaxTree, root: usize) -> (r: (Vec<usize>, Vec<usize>))
    requires
        t.wf(),
        root < t.nodes@.len(),
    ensures
        (r.0@, r.1@) == break_ids(*t, t.subtree_order(root), 1),
{
    detect_line_breaks_inner(t, root, 1)
}

} // verus!
