//! Tree-sitter nodes and cursors behind the `SyntaxNode` and `SyntaxCursor`
//! interfaces, and the conversion of any syntax node into a `SyntaxTree`.

use vstd::prelude::*;
use crate::matches::{Point, Range};
use crate::tree::{SyntaxCursor, SyntaxNode, SyntaxTree, SyntaxTreeNode};

verus! {

#[verifier::external_type_specification]
#[verifier::external_body]
pub struct ExTsNode<'a>(tree_sitter::Node<'a>);

#[verifier::external_type_specification]
#[verifier::external_body]
pub struct ExTsTreeCursor<'a>(tree_sitter::TreeCursor<'a>);

/// `tree_sitter::Node::kind`: the name of the node's grammar symbol. Nothing
/// is claimed of the name.
#[verifier::external_body]
fn ts_node_kind<'a>(node: &tree_sitter::Node<'a>) -> (k: &'static str) {
    node.kind()
}

/// `tree_sitter::Node::range`, field by field. Nothing is claimed of the
/// range.
#[verifier::external_body]
pub(crate) fn ts_node_range<'a>(node: &tree_sitter::Node<'a>) -> (r: Range) {
    let r = node.range();
    Range {
        start_byte: r.start_byte,
        end_byte: r.end_byte,
        start_point: Point { row: r.start_point.row, column: r.start_point.column },
        end_point: Point { row: r.end_point.row, column: r.end_point.column },
    }
}

/// `tree_sitter::Node::child_count`: the number of children. Nothing is
/// claimed of the number.
#[verifier::external_body]
pub(crate) fn ts_node_child_count<'a>(node: &tree_sitter::Node<'a>) -> (n: usize) {
    node.child_count()
}

/// `tree_sitter::Node::child`: the child at index `i`, if there is one.
/// Nothing is claimed of the result.
#[verifier::external_body]
pub(crate) fn ts_node_child<'a>(node: &tree_sitter::Node<'a>, i: usize) -> (c: Option<tree_sitter::Node<'a>>) {
    node.child(i)
}

/// `tree_sitter::Node::walk`: a cursor that starts at the node.
#[verifier::external_body]
fn ts_node_walk<'a>(node: &tree_sitter::Node<'a>) -> (c: tree_sitter::TreeCursor<'a>) {
    node.walk()
}

/// `tree_sitter::TreeCursor::node`: the node the cursor is at.
#[verifier::external_body]
fn ts_cursor_node<'a>(cursor: &tree_sitter::TreeCursor<'a>) -> (n: tree_sitter::Node<'a>) {
    cursor.node()
}

/// `tree_sitter::TreeCursor::goto_first_child`. Nothing is claimed of the
/// result.
#[verifier::external_body]
fn ts_cursor_goto_first_child<'a>(cursor: &mut tree_sitter::TreeCursor<'a>) -> (moved: bool) {
    cursor.goto_first_child()
}

/// `tree_sitter::TreeCursor::goto_next_sibling`. Nothing is claimed of the
/// result.
#[verifier::external_body]
fn ts_cursor_goto_next_sibling<'a>(cursor: &mut tree_sitter::TreeCursor<'a>) -> (moved: bool) {
    cursor.goto_next_sibling()
}

/// `tree_sitter::TreeCursor::goto_parent`. Nothing is claimed of the result.
#[verifier::external_body]
fn ts_cursor_goto_parent<'a>(cursor: &mut tree_sitter::TreeCursor<'a>) -> (moved: bool) {
    cursor.goto_parent()
}

/// A tree-sitter node behind the `SyntaxNode` interface.
pub struct NativeNode<'a> {
    pub inner: tree_sitter::Node<'a>,
}

impl<'a> SyntaxNode for NativeNode<'a> {
    fn range(&self) -> Range {
        ts_node_range(&self.inner)
    }

    fn kind(&self) -> &str {
        ts_node_kind(&self.inner)
    }

    fn child_count(&self) -> usize {
        ts_node_child_count(&self.inner)
    }

    fn child(&self, index: usize) -> Option<Self> {
        match ts_node_child(&self.inner, index) {
            Some(node) => Some(NativeNode { inner: node }),
            None => None,
        }
    }

    fn children(&self) -> Vec<Self> {
        let n = ts_node_child_count(&self.inner);
        let mut v: Vec<Self> = Vec::new();
        let mut i: usize = 0;
        while i < n
            invariant
                i <= n,
            decreases n - i,
        {
            match ts_node_child(&self.inner, i) {
                Some(node) => v.push(NativeNode { inner: node }),
                None => {},
            }
            i = i + 1;
        }
        v
    }
}

impl<'a> NativeNode<'a> {
    /// A cursor that starts at this node.
    pub fn walk(&self) -> NativeCursor<'a> {
        NativeCursor { inner: ts_node_walk(&self.inner) }
    }
}

/// A tree-sitter cursor behind the `SyntaxCursor` interface.
pub struct NativeCursor<'a> {
    pub inner: tree_sitter::TreeCursor<'a>,
}

impl<'a> SyntaxCursor for NativeCursor<'a> {
    type Node = NativeNode<'a>;

    fn node(&self) -> NativeNode<'a> {
        NativeNode { inner: ts_cursor_node(&self.inner) }
    }

    fn goto_first_child(&mut self) -> bool {
        ts_cursor_goto_first_child(&mut self.inner)
    }

    fn goto_next_sibling(&mut self) -> bool {
        ts_cursor_goto_next_sibling(&mut self.inner)
    }

    fn goto_parent(&mut self) -> bool {
        ts_cursor_goto_parent(&mut self.inner)
    }
}

/// Conversions between tree-sitter values and their wrappers.
pub struct TreeSitterAdapter;

impl TreeSitterAdapter {
    /// Wraps a tree-sitter node.
    pub fn wrap_node<'a>(node: tree_sitter::Node<'a>) -> (n: NativeNode<'a>)
        ensures
            n.inner == node,
    {
        NativeNode { inner: node }
    }

    /// Wraps a tree-sitter cursor.
    pub fn wrap_cursor<'a>(cursor: tree_sitter::TreeCursor<'a>) -> (c: NativeCursor<'a>)
        ensures
            c.inner == cursor,
    {
        NativeCursor { inner: cursor }
    }

    /// The tree-sitter node inside a wrapper.
    pub fn unwrap_node<'a>(node: &NativeNode<'a>) -> (n: tree_sitter::Node<'a>)
        ensures
            n == node.inner,
    {
        node.inner
    }

    /// The tree-sitter cursor inside a wrapper.
    pub fn unwrap_cursor<'a>(cursor: &'a NativeCursor<'a>) -> (c: &'a tree_sitter::TreeCursor<'a>)
        ensures
            *c == cursor.inner,
    {
        &cursor.inner
    }
}

} // verus!
