use vstd::prelude::*;
use vstd::utf8::{encode_utf8, valid_utf8};

verus! {

/// The parser of tree-sitter, of which nothing is looked into.
#[verifier::external_type_specification]
#[verifier::external_body]
pub struct ExParser(tree_sitter::Parser);

/// A syntax tree of tree-sitter, of which nothing is looked into.
#[verifier::external_type_specification]
#[verifier::external_body]
pub struct ExTree(tree_sitter::Tree);

/// A node of such a tree, of which nothing is looked into.
#[verifier::external_type_specification]
#[verifier::external_body]
pub struct ExNode<'tree>(tree_sitter::Node<'tree>);

/// What a syntax node holds, as plain values: its grammar kind, where it starts and ends in the
/// text (row and column, then bytes), and its children in their order.
pub struct Outline {
    pub kind: Seq<char>,
    pub start: (usize, usize),
    pub end: (usize, usize),
    pub first_byte: usize,
    pub end_byte: usize,
    pub children: Seq<Outline>,
}

/// What the root node of `tree` holds.
pub uninterp spec fn tree_outline(tree: tree_sitter::Tree) -> Outline;

/// What `node` holds.
pub uninterp spec fn node_outline(node: tree_sitter::Node<'_>) -> Outline;

/// Calls `Parser::parse`. Nothing is promised of the outcome: without a language, after a
/// timeout or a cancellation the parser hands out no tree.
#[verifier::external_body]
pub(crate) fn parse(
    parser: &mut tree_sitter::Parser,
    text: &str,
    previous: Option<&tree_sitter::Tree>,
) -> (parsed: Option<tree_sitter::Tree>) {
    parser.parse(text, previous)
}

/// Calls `Tree::root_node`. Trusted: the node handed out is the root of `tree`.
#[verifier::external_body]
pub(crate) fn root<'tree>(tree: &'tree tree_sitter::Tree) -> (node: tree_sitter::Node<'tree>)
    ensures
        node_outline(node) == tree_outline(*tree),
{
    tree.root_node()
}

/// Calls `Node::kind`. Trusted: the string is the node's grammar kind.
#[verifier::external_body]
pub(crate) fn kind(node: &tree_sitter::Node<'_>) -> (name: &'static str)
    ensures
        name@ == node_outline(*node).kind,
{
    node.kind()
}

/// Calls `Node::start_position`. Trusted: row and column of the node's first character.
#[verifier::external_body]
pub(crate) fn start_position(node: &tree_sitter::Node<'_>) -> (at: (usize, usize))
    ensures
        at == node_outline(*node).start,
{
    let point = node.start_position();
    (point.row, point.column)
}

/// Calls `Node::end_position`. Trusted: row and column at which the node ends.
#[verifier::external_body]
pub(crate) fn end_position(node: &tree_sitter::Node<'_>) -> (at: (usize, usize))
    ensures
        at == node_outline(*node).end,
{
    let point = node.end_position();
    (point.row, point.column)
}

/// Calls `Node::start_byte`. Trusted: the byte offset at which the node starts.
#[verifier::external_body]
pub(crate) fn start_byte(node: &tree_sitter::Node<'_>) -> (at: usize)
    ensures
        at == node_outline(*node).first_byte,
{
    node.start_byte()
}

/// Calls `Node::end_byte`. Trusted: the byte offset at which the node ends.
#[verifier::external_body]
pub(crate) fn end_byte(node: &tree_sitter::Node<'_>) -> (at: usize)
    ensures
        at == node_outline(*node).end_byte,
{
    node.end_byte()
}

/// Calls `Node::children` with a cursor from `Node::walk` and collects the nodes. Trusted: they
/// are the node's children, all of them, in their order.
#[verifier::external_body]
pub(crate) fn children<'tree>(node: &tree_sitter::Node<'tree>) -> (nodes: Vec<
    tree_sitter::Node<'tree>,
>)
    ensures
        nodes@.len() == node_outline(*node).children.len(),
        forall|i: int|
            0 <= i < nodes@.len() ==> node_outline(#[trigger] nodes@[i]) == node_outline(
                *node,
            ).children[i],
{
    let mut cursor = node.walk();
    node.children(&mut cursor).collect()
}

/// Calls `Node::utf8_text` on the bytes of `source`. Trusted: the call slices `source` from the
/// node's first byte to its end byte, which must lie in `source`, and hands the slice out if it
/// is UTF-8 and fails if it is not.
#[verifier::external_body]
pub(crate) fn utf8_text<'a>(node: &tree_sitter::Node<'_>, source: &'a str) -> (piece: Option<
    &'a str,
>)
    requires
        node_outline(*node).first_byte <= node_outline(*node).end_byte <= encode_utf8(source@).len(),
    ensures
        piece is Some <==> valid_utf8(
            encode_utf8(source@).subrange(
                node_outline(*node).first_byte as int,
                node_outline(*node).end_byte as int,
            ),
        ),
        piece matches Some(slice) ==> encode_utf8(slice@) == encode_utf8(source@).subrange(
            node_outline(*node).first_byte as int,
            node_outline(*node).end_byte as int,
        ),
{
    node.utf8_text(source.as_bytes()).ok()
}

} // verus!
