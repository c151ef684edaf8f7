//! Syntax trees as plain values, and cursors that walk them.
//!
//! A tree is a list of nodes; node `0` is the root and each node lists the
//! indices of its children, in source order. Children come after their parent
//! and siblings come in increasing order, as a pre-order numbering gives them.

use vstd::prelude::*;
use crate::matches::Range;
use crate::text::{has_infix, str_contains, chars_to_string};

verus! {

/// A node: its kind, its range in the source and its children.
#[derive(Debug)]
pub struct SyntaxTreeNode {
    pub kind: String,
    pub range: Range,
    pub children: Vec<usize>,
}

/// Every child index names a later node, and siblings come in increasing
/// order.
pub open spec fn nodes_wf(nodes: Seq<SyntaxTreeNode>) -> bool {
    &&& forall|i: int, k: int|
        0 <= i < nodes.len() && 0 <= k < nodes[i].children@.len() ==> i < #[trigger] nodes[i].children@[k]
            < nodes.len()
    &&& forall|i: int, k: int|
        0 <= i < nodes.len() && 0 <= k && k + 1 < nodes[i].children@.len() ==> #[trigger] nodes[i].children@[k]
            < nodes[i].children@[k + 1]
}

/// A syntax tree whose nodes are numbered in pre-order.
#[derive(Debug)]
pub struct SyntaxTree {
    pub nodes: Vec<SyntaxTreeNode>,
}

impl SyntaxTree {
    /// Every child index names a later node, and siblings come in increasing
    /// order.
    pub open spec fn wf(&self) -> bool {
        nodes_wf(self.nodes@)
    }

    pub open spec fn spec_child_count(&self, i: int) -> nat {
        self.nodes@[i].children@.len()
    }

    pub open spec fn spec_child(&self, i: int, k: int) -> int {
        self.nodes@[i].children@[k] as int
    }

    /// The tree under `root`, its nodes numbered in pre-order. The nodes
    /// come from the interface alone, so what is known of the result is its
    /// shape: it has a node and is well formed.
    pub fn from_node<N: SyntaxNode>(root: &N) -> (t: SyntaxTree)
        ensures
            t.wf(),
            t.nodes@.len() > 0,
    {
        let mut nodes: Vec<SyntaxTreeNode> = Vec::new();
        nodes.push(SyntaxTreeNode { kind: root.kind().to_owned(), range: root.range(), children: Vec::new() });
        let mut stack: Vec<(N, usize)> = Vec::new();
        let kids = root.children();
        let mut k: usize = kids.len();
        let mut kids = kids;
        while k > 0
            invariant
                k <= kids@.len(),
                forall|j: int| 0 <= j < stack@.len() ==> (#[trigger] stack@[j]).1 == 0,
                nodes@.len() == 1,
                nodes@[0].children@.len() == 0,
            decreases k,
        {
            k = k - 1;
            match kids.pop() {
                Some(c) => stack.push((c, 0)),
                None => {},
            }
        }
        while stack.len() > 0 && nodes.len() < usize::MAX
            invariant
                nodes_wf(nodes@),
                nodes@.len() > 0,
                forall|j: int| 0 <= j < stack@.len() ==> (#[trigger] stack@[j]).1 < nodes@.len(),
            decreases usize::MAX - nodes@.len(),
        {
            let (node, parent) = match stack.pop() {
                Some(e) => e,
                None => {
                    break;
                },
            };
            let idx = nodes.len();
            let ghost before = nodes@;
            nodes.push(SyntaxTreeNode { kind: node.kind().to_owned(), range: node.range(), children: Vec::new() });
            let ghost mid = nodes@;
            nodes[parent].children.push(idx);
            assert(mid.len() == before.len() + 1);
            assert(mid[idx as int].children@.len() == 0);
            assert(forall|i: int| 0 <= i < before.len() ==> mid[i] == before[i]);
            assert(nodes@.len() == mid.len());
            assert(nodes@[parent as int].children@ == mid[parent as int].children@.push(idx));
            assert(forall|i: int| 0 <= i < mid.len() && i != parent ==> nodes@[i] == mid[i]);
            proof {
                let t = nodes@;
                assert(nodes_wf(before));
                assert forall|i: int, k: int|
                    0 <= i < t.len() && 0 <= k < t[i].children@.len() implies i < #[trigger] t[i].children@[k]
                        < t.len() by {
                    if i != parent && i < before.len() {
                        assert(t[i] == before[i]);
                        assert(before[i].children@[k] < before.len());
                    }
                    if i == parent && k < before[i].children@.len() {
                        assert(t[i].children@[k] == before[i].children@[k]);
                        assert(before[i].children@[k] < before.len());
                    }
                }
                assert forall|i: int, k: int|
                    0 <= i < t.len() && 0 <= k && k + 1 < t[i].children@.len() implies #[trigger] t[i].children@[k]
                        < t[i].children@[k + 1] by {
                    if i != parent && i < before.len() {
                        assert(t[i] == before[i]);
                    }
                    if i == parent {
                        assert(t[i].children@[k] == before[i].children@[k]);
                        assert(before[i].children@[k] < before.len());
                        if k + 1 < before[i].children@.len() {
                            assert(t[i].children@[k + 1] == before[i].children@[k + 1]);
                        }
                    }
                }
                assert(nodes_wf(t));
            }
            let kids = node.children();
            let mut kids = kids;
            let mut k: usize = kids.len();
            while k > 0
                invariant
                    k <= kids@.len(),
                    nodes@.len() > 0,
                    idx < nodes@.len(),
                    forall|j: int| 0 <= j < stack@.len() ==> (#[trigger] stack@[j]).1 < nodes@.len(),
                decreases k,
            {
                k = k - 1;
                match kids.pop() {
                    Some(c) => stack.push((c, idx)),
                    None => {},
                }
            }
        }
        SyntaxTree { nodes }
    }

    /// The root of the tree.
    pub fn root(&self) -> (n: NodeRef<'_>)
        ensures
            n.tree == self,
            n.index == 0,
    {
        NodeRef { tree: self, index: 0 }
    }

    /// The number of nodes.
    pub fn len(&self) -> (n: usize)
        ensures
            n == self.nodes@.len(),
    {
        self.nodes.len()
    }

    /// The number of children of node `i`.
    pub fn child_count(&self, i: usize) -> (n: usize)
        requires
            i < self.nodes@.len(),
        ensures
            n == self.spec_child_count(i as int),
    {
        self.nodes[i].children.len()
    }

    /// The `k`-th child of node `i`.
    pub fn child(&self, i: usize, k: usize) -> (c: usize)
        requires
            i < self.nodes@.len(),
            k < self.spec_child_count(i as int),
        ensures
            c == self.spec_child(i as int, k as int),
    {
        self.nodes[i].children[k]
    }

    /// The range of node `i`.
    pub fn range(&self, i: usize) -> (r: Range)
        requires
            i < self.nodes@.len(),
        ensures
            r == self.nodes@[i as int].range,
    {
        self.nodes[i].range
    }

    /// Whether node `i` is a comment: its kind contains `comment`.
    pub fn is_comment(&self, i: usize) -> (b: bool)
        requires
            i < self.nodes@.len(),
        ensures
            b == is_comment_kind(self.nodes@[i as int].kind@),
    {
        let needle = chars_to_string(&comment_word());
        str_contains(self.nodes[i].kind.as_str(), needle.as_str())
    }
}

pub open spec fn spec_comment_word() -> Seq<char> {
    seq!['c', 'o', 'm', 'm', 'e', 'n', 't']
}

fn comment_word() -> (v: Vec<char>)
    ensures
        v@ == spec_comment_word(),
{
    vec!['c', 'o', 'm', 'm', 'e', 'n', 't']
}

/// A node kind that contains the word `comment`.
pub open spec fn is_comment_kind(kind: Seq<char>) -> bool {
    has_infix(kind, spec_comment_word())
}

/// The interface of syntax nodes that matching reads.
pub trait SyntaxNode: Sized {
    fn range(&self) -> Range;

    fn kind(&self) -> &str;

    fn child_count(&self) -> usize;

    fn child(&self, index: usize) -> Option<Self>;

    fn children(&self) -> Vec<Self>;
}

/// The interface of cursors over syntax nodes.
pub trait SyntaxCursor: Sized {
    type Node: SyntaxNode;

    fn node(&self) -> Self::Node;

    fn goto_first_child(&mut self) -> bool;

    fn goto_next_sibling(&mut self) -> bool;

    fn goto_parent(&mut self) -> bool;
}

/// A node of a tree, by its index.
pub struct NodeRef<'t> {
    pub tree: &'t SyntaxTree,
    pub index: usize,
}

impl<'t> SyntaxNode for NodeRef<'t> {
    fn range(&self) -> (r: Range)
        ensures
            self.index < self.tree.nodes@.len() ==> r == self.tree.nodes@[self.index as int].range,
    {
        if self.index < self.tree.nodes.len() {
            self.tree.nodes[self.index].range
        } else {
            let p = crate::matches::Point { row: 0, column: 0 };
            Range { start_byte: 0, end_byte: 0, start_point: p, end_point: p }
        }
    }

    fn kind(&self) -> (k: &str)
        ensures
            self.index < self.tree.nodes@.len() ==> k@ == self.tree.nodes@[self.index as int].kind@,
    {
        if self.index < self.tree.nodes.len() {
            self.tree.nodes[self.index].kind.as_str()
        } else {
            ""
        }
    }

    fn child_count(&self) -> (n: usize)
        ensures
            self.index < self.tree.nodes@.len() ==> n == self.tree.spec_child_count(self.index as int),
    {
        if self.index < self.tree.nodes.len() {
            self.tree.nodes[self.index].children.len()
        } else {
            0
        }
    }

    fn child(&self, index: usize) -> (c: Option<Self>)
        ensures
            self.index < self.tree.nodes@.len() && index < self.tree.spec_child_count(self.index as int)
                ==> (c matches Some(n) && n.tree == self.tree && n.index == self.tree.spec_child(
                self.index as int,
                index as int,
            )),
            !(self.index < self.tree.nodes@.len() && index < self.tree.spec_child_count(
                self.index as int,
            )) ==> c is None,
    {
        if self.index < self.tree.nodes.len() && index < self.tree.nodes[self.index].children.len() {
            Some(NodeRef { tree: self.tree, index: self.tree.nodes[self.index].children[index] })
        } else {
            None
        }
    }

    fn children(&self) -> (v: Vec<Self>)
        ensures
            self.index < self.tree.nodes@.len() ==> v@.len() == self.tree.spec_child_count(
                self.index as int,
            ) && forall|k: int| 0 <= k < v@.len() ==> #[trigger] v@[k].index == self.tree.spec_child(
                self.index as int,
                k,
            ) && v@[k].tree == self.tree,
    {
        let mut v: Vec<Self> = Vec::new();
        if self.index < self.tree.nodes.len() {
            let mut k: usize = 0;
            while k < self.tree.nodes[self.index].children.len()
                invariant
                    self.index < self.tree.nodes@.len(),
                    k <= self.tree.spec_child_count(self.index as int),
                    v@.len() == k,
                    forall|j: int| 0 <= j < k ==> #[trigger] v@[j].index == self.tree.spec_child(
                        self.index as int,
                        j,
                    ) && v@[j].tree == self.tree,
                decreases self.tree.spec_child_count(self.index as int) - k,
            {
                v.push(NodeRef { tree: self.tree, index: self.tree.nodes[self.index].children[k] });
                k = k + 1;
            }
        }
        v
    }
}

impl<'t> NodeRef<'t> {
    /// A cursor that starts at this node and never leaves its subtree.
    pub fn walk(&self) -> (c: NodeCursor<'t>)
        requires
            self.index < self.tree.nodes@.len(),
        ensures
            c.tree == self.tree,
            c.path@ == seq![(self.index, 0usize)],
            c.wf(),
    {
        let mut path: Vec<(usize, usize)> = Vec::new();
        path.push((self.index, 0));
        NodeCursor { tree: self.tree, path }
    }
}

/// A cursor over a tree. Its path runs from the node it was made for (which
/// it never leaves) to the current node; each step records a child and its
/// position among its siblings.
pub struct NodeCursor<'t> {
    pub tree: &'t SyntaxTree,
    pub path: Vec<(usize, usize)>,
}

impl<'t> NodeCursor<'t> {
    pub open spec fn wf(&self) -> bool {
        &&& self.path@.len() >= 1
        &&& self.path@[0].0 < self.tree.nodes@.len()
        &&& forall|k: int| 1 <= k < self.path@.len() ==> {
            let parent = #[trigger] self.path@[k - 1].0;
            &&& parent < self.tree.nodes@.len()
            &&& self.path@[k].1 < self.tree.spec_child_count(parent as int)
            &&& self.path@[k].0 == self.tree.spec_child(parent as int, self.path@[k].1 as int)
        }
    }

    /// The node the cursor is at.
    pub open spec fn cur(&self) -> int {
        self.path@.last().0 as int
    }

    /// The node the cursor was made for.
    pub open spec fn top(&self) -> int {
        self.path@[0].0 as int
    }

    pub proof fn lemma_cur_in_tree(&self)
        requires
            self.wf(),
            self.tree.wf(),
        ensures
            0 <= self.cur() < self.tree.nodes@.len(),
            self.top() <= self.cur(),
        decreases self.path@.len(),
    {
        let n = self.path@.len();
        if n > 1 {
            assert forall|k: int| 1 <= k < n implies self.path@[0].0 <= #[trigger] self.path@[k].0
                && self.path@[k].0 < self.tree.nodes@.len() by {
                self.lemma_path_increasing(k);
            }
        }
    }

    proof fn lemma_path_increasing(&self, k: int)
        requires
            self.wf(),
            self.tree.wf(),
            0 <= k < self.path@.len(),
        ensures
            self.path@[0].0 <= self.path@[k].0,
            self.path@[k].0 < self.tree.nodes@.len(),
        decreases k,
    {
        if k > 0 {
            self.lemma_path_increasing(k - 1);
            let parent = self.path@[k - 1].0;
            assert(self.path@[k - 1].0 == parent);
            let idx = self.path@[k].1 as int;
            assert(self.tree.nodes@[parent as int].children@[idx] == self.path@[k].0);
        }
    }

    proof fn lemma_path_mono(&self, i: int, k: int)
        requires
            self.wf(),
            self.tree.wf(),
            0 <= i <= k < self.path@.len(),
        ensures
            self.path@[i].0 <= self.path@[k].0,
        decreases k - i,
    {
        if i < k {
            self.lemma_path_mono(i, k - 1);
            let parent = self.path@[k - 1].0;
            assert(self.path@[k - 1].0 == parent);
            self.lemma_path_increasing(k - 1);
            let idx = self.path@[k].1 as int;
            assert(self.tree.nodes@[parent as int].children@[idx] == self.path@[k].0);
        }
    }

    /// A cursor that has moved down from its node is strictly below it.
    pub proof fn lemma_cur_below_top(&self)
        requires
            self.wf(),
            self.tree.wf(),
            self.path@.len() >= 2,
        ensures
            self.top() < self.cur(),
            self.cur() < self.tree.nodes@.len(),
    {
        self.lemma_cur_in_tree();
        self.lemma_path_mono(1, self.path@.len() - 1);
        let top = self.path@[0].0;
        let k = 1int;
        assert(self.path@[k - 1].0 == top);
        let idx = self.path@[1].1 as int;
        assert(self.tree.nodes@[top as int].children@[idx] == self.path@[1].0);
    }

    /// The node the cursor is at.
    pub fn node(&self) -> (i: usize)
        requires
            self.wf(),
        ensures
            i == self.cur(),
    {
        self.path[self.path.len() - 1].0
    }

    /// A copy of the cursor.
    pub fn duplicate(&self) -> (c: NodeCursor<'t>)
        ensures
            c.tree == self.tree,
            c.path@ == self.path@,
    {
        let mut path: Vec<(usize, usize)> = Vec::new();
        let mut k: usize = 0;
        while k < self.path.len()
            invariant
                k <= self.path@.len(),
                path@ == self.path@.take(k as int),
            decreases self.path@.len() - k,
        {
            path.push(self.path[k]);
            k = k + 1;
            assert(path@ =~= self.path@.take(k as int));
        }
        assert(self.path@.take(self.path@.len() as int) =~= self.path@);
        NodeCursor { tree: self.tree, path }
    }

    /// Moves to the first child of the current node, if it has one.
    pub fn goto_first_child(&mut self) -> (moved: bool)
        requires
            old(self).wf(),
            old(self).tree.wf(),
        ensures
            final(self).wf(),
            final(self).tree == old(self).tree,
            final(self).top() == old(self).top(),
            moved ==> final(self).path@ == old(self).path@.push(
                (old(self).tree.spec_child(old(self).cur(), 0) as usize, 0usize),
            ),
            moved <==> old(self).tree.spec_child_count(old(self).cur()) > 0,
            !moved ==> final(self).path@ == old(self).path@,
            moved ==> final(self).cur() > old(self).cur(),
    {
        proof {
            self.lemma_cur_in_tree();
        }
        let cur = self.path[self.path.len() - 1].0;
        if self.tree.nodes[cur].children.len() > 0 {
            let c = self.tree.nodes[cur].children[0];
            self.path.push((c, 0));
            true
        } else {
            false
        }
    }

    /// Moves to the next sibling of the current node, if it has one within
    /// the subtree the cursor was made for.
    pub fn goto_next_sibling(&mut self) -> (moved: bool)
        requires
            old(self).wf(),
            old(self).tree.wf(),
        ensures
            final(self).wf(),
            final(self).tree == old(self).tree,
            final(self).top() == old(self).top(),
            final(self).path@.len() == old(self).path@.len(),
            final(self).path@.drop_last() == old(self).path@.drop_last(),
            moved ==> final(self).cur() > old(self).cur(),
            moved ==> final(self).path@.last().1 == old(self).path@.last().1 + 1,
            !moved ==> final(self).path@ == old(self).path@,
            moved <==> (old(self).path@.len() > 1 && old(self).path@.last().1 + 1
                < old(self).tree.spec_child_count(old(self).path@[old(self).path@.len() - 2].0 as int)),
    {
        let n = self.path.len();
        if n < 2 {
            return false;
        }
        let parent = self.path[n - 2].0;
        let idx = self.path[n - 1].1;
        proof {
            let k = (n - 1) as int;
            assert(self.path@[k - 1].0 == parent);
        }
        if idx < self.tree.nodes[parent].children.len() - 1 {
            let c = self.tree.nodes[parent].children[idx + 1];
            let ghost old_path = self.path@;
            self.path.set(n - 1, (c, idx + 1));
            assert(self.path@.drop_last() =~= old_path.drop_last());
            assert(self.tree.nodes@[parent as int].children@[idx as int] < c);
            true
        } else {
            false
        }
    }

    /// Moves to the parent of the current node, unless the cursor is at the
    /// node it was made for.
    pub fn goto_parent(&mut self) -> (moved: bool)
        requires
            old(self).wf(),
        ensures
            final(self).wf(),
            final(self).tree == old(self).tree,
            final(self).top() == old(self).top(),
            moved <==> old(self).path@.len() > 1,
            moved ==> final(self).path@ == old(self).path@.drop_last(),
            !moved ==> final(self).path@ == old(self).path@,
    {
        if self.path.len() > 1 {
            let _ = self.path.pop();
            true
        } else {
            false
        }
    }
}

} // verus!
