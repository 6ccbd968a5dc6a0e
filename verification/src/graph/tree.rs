//! The syntax oracle over a parsed source file: tree-sitter parses, and the oracle's questions
//! (the name node containing a span, the declarations enclosing an offset, the construct at an
//! operator, the shapes of `impl` headers, class bases and alias bindings) are answered over the
//! parsed tree's nodes held as plain records.

use vstd::prelude::*;
use vstd::string::StrSliceExecFns;

use crate::text::chars_of;
use crate::utf::{bytes_len, utf8_width, utf8_width_of};

use crate::text::str_eq;
use vstd::utf8::encode_utf8;

use super::range::ByteSpan;
use super::rules::{dotted_view, ostr, SiteFacts};
use super::syntax::{
    declaration_kind, is_declaration_kind, is_name_node_kind, name_node_kind, AliasBinding, ClassBases, ConstructAt, Language, RangeShape,
    SyntaxDeclaration, TraitImpl,
};

verus! {

/// The ids of a node's children under each field the oracle reads, as `Node::child_by_field_name`
/// finds them.
#[derive(Debug, Clone, Copy)]
pub struct FieldChildren {
    /// The `name` field.
    pub name: Option<usize>,
    /// The `type` field.
    pub ty: Option<usize>,
    /// The `trait` field.
    pub trait_ref: Option<usize>,
    /// The `superclasses` field.
    pub superclasses: Option<usize>,
    /// The `alias` field.
    pub alias: Option<usize>,
    /// The `path` field.
    pub path: Option<usize>,
    /// The `operator` field.
    pub operator: Option<usize>,
    /// The `left` field.
    pub left: Option<usize>,
    /// The `right` field.
    pub right: Option<usize>,
    /// The `attribute` field.
    pub attribute: Option<usize>,
    /// The `field` field.
    pub field: Option<usize>,
}

/// One node of a parsed tree as plain values. Nodes are held in the order a depth-first walk from
/// the root visits them when it pops the last-pushed node first; neighbours are named by node id.
#[derive(Debug, Clone)]
pub struct SyntaxNode {
    /// The node's id, unique within its tree.
    pub id: usize,
    /// The node kind.
    pub kind: String,
    /// Whether the node is named (not an anonymous token).
    pub named: bool,
    /// The node's byte span.
    pub span: ByteSpan,
    /// The position of the node whose children it is among.
    pub parent: Option<usize>,
    /// The id of the first child.
    pub first_child: Option<usize>,
    /// The id of the previous sibling.
    pub prev_sibling: Option<usize>,
    /// The id of the next sibling.
    pub next_sibling: Option<usize>,
    /// The ids of the children under the fields the oracle reads.
    pub fields: FieldChildren,
    /// The ids of the named children, in order.
    pub named_children: Vec<usize>,
}

/// Whether a parent position, where there is one, comes before position `k`.
pub open spec fn precedes(parent: Option<usize>, k: int) -> bool {
    match parent {
        Some(p) => p < k,
        None => true,
    }
}

#[verifier::external_type_specification]
#[verifier::external_body]
pub struct ExTree(tree_sitter::Tree);

#[verifier::external_type_specification]
#[verifier::external_body]
pub struct ExNode<'a>(tree_sitter::Node<'a>);

/// `tree_sitter::Parser::new`, `Parser::set_language` with the grammar of `language`, then
/// `Parser::parse` over `source`. `set_language` refuses only a grammar whose ABI version lies
/// outside the range this tree-sitter accepts (13 to 15) or that is not parseable; both bundled
/// grammars are generated at ABI 15. `parse` gives no tree only where no language is set or the
/// parse is cancelled, and no cancellation is asked for. So a tree always comes back; nothing is
/// claimed of its shape.
#[verifier::external_body]
fn parse_source(source: &str, language: Language) -> (r: Option<tree_sitter::Tree>)
    ensures
        r is Some,
{
    let grammar: tree_sitter::Language = match language {
        Language::Rust => tree_sitter_rust::LANGUAGE.into(),
        Language::Python => tree_sitter_python::LANGUAGE.into(),
    };
    let mut parser = tree_sitter::Parser::new();
    parser.set_language(&grammar).ok()?;
    parser.parse(source, None)
}

/// `Tree::root_node`.
#[verifier::external_body]
fn root_of<'a>(tree: &'a tree_sitter::Tree) -> (r: tree_sitter::Node<'a>) {
    tree.root_node()
}

/// `Node::children` of one node, in order.
#[verifier::external_body]
fn node_children<'a>(node: &tree_sitter::Node<'a>) -> (r: Vec<tree_sitter::Node<'a>>) {
    let mut cursor = node.walk();
    node.children(&mut cursor).collect()
}

/// `Node::descendant_count` of the root: tree-sitter counts the node itself and each of its
/// visible descendants, which are the nodes that `Node::children` reaches. Nothing is claimed of
/// the number.
#[verifier::external_body]
fn reachable_count(tree: &tree_sitter::Tree) -> (r: usize) {
    tree.root_node().descendant_count()
}

/// The nodes of `tree` as a depth-first walk from the root visits them when it pops the
/// last-pushed node first and pushes each node's children in order, each with the position of the
/// node whose children it was among. The root comes first, and a parent always comes before its
/// children. The walk stops after as many nodes as tree-sitter counts in the tree, which are all
/// of them.
fn visit_order<'a>(tree: &'a tree_sitter::Tree) -> (r: Vec<(tree_sitter::Node<'a>, Option<usize>)>)
    ensures
        r.len() >= 1,
        r@[0].1 is None,
        forall|k: int| 0 <= k < r.len() ==> precedes((#[trigger] r@[k]).1, k),
        forall|k: int| 1 <= k < r.len() ==> (#[trigger] r@[k]).1 is Some,
{
    let bound = reachable_count(tree);
    let mut out: Vec<(tree_sitter::Node<'a>, Option<usize>)> = Vec::new();
    let mut stack: Vec<(tree_sitter::Node<'a>, Option<usize>)> = Vec::new();
    let root = root_of(tree);
    push_children(&mut stack, &root, 0);
    out.push((root, None));
    while out.len() < bound
        invariant
            out.len() >= 1,
            out@[0].1 is None,
            forall|k: int| 0 <= k < out.len() ==> precedes((#[trigger] out@[k]).1, k),
            forall|k: int| 1 <= k < out.len() ==> (#[trigger] out@[k]).1 is Some,
            forall|j: int| 0 <= j < stack.len() ==> placed_before((#[trigger] stack@[j]).1, out.len() as int),
        decreases bound - out.len(),
    {
        let (node, parent) = match stack.pop() {
            Some(entry) => entry,
            None => break,
        };
        let at = out.len();
        push_children(&mut stack, &node, at);
        out.push((node, parent));
    }
    out
}

/// Whether a parent position is present and comes before position `n`.
pub open spec fn placed_before(parent: Option<usize>, n: int) -> bool {
    match parent {
        Some(p) => p < n,
        None => false,
    }
}

/// Push the children of `node`, in order, each with the parent position `at`.
fn push_children<'a>(stack: &mut Vec<(tree_sitter::Node<'a>, Option<usize>)>, node: &tree_sitter::Node<'a>, at: usize)
    ensures
        forall|j: int| 0 <= j < old(stack).len() ==> (#[trigger] final(stack)@[j]) == old(stack)@[j],
        final(stack).len() >= old(stack).len(),
        forall|j: int| old(stack).len() <= j < final(stack).len() ==> (#[trigger] final(stack)@[j]).1 == Some(at),
{
    let kids = node_children(node);
    let mut i: usize = 0;
    while i < kids.len()
        invariant
            i <= kids.len(),
            stack.len() >= old(stack).len(),
            forall|j: int| 0 <= j < old(stack).len() ==> (#[trigger] stack@[j]) == old(stack)@[j],
            forall|j: int| old(stack).len() <= j < stack.len() ==> (#[trigger] stack@[j]).1 == Some(at),
        decreases kids.len() - i,
    {
        stack.push((kids[i], Some(at)));
        i = i + 1;
    }
}

/// `Node::id`, `Node::kind`, `Node::is_named`, `Node::start_byte` and `Node::end_byte` of one
/// node. tree-sitter computes a node's end byte as its start byte plus its size, so the span is
/// never reversed; nothing else is claimed.
#[verifier::external_body]
fn node_facts(node: &tree_sitter::Node) -> (r: (usize, String, bool, ByteSpan))
    ensures
        r.3.start <= r.3.end,
{
    (node.id(), node.kind().to_owned(), node.is_named(), ByteSpan { start: node.start_byte(), end: node.end_byte() })
}

/// The id of `Node::child_by_field_name(field)`: the first child under that field. Nothing is
/// claimed of it.
#[verifier::external_body]
fn field_child(node: &tree_sitter::Node, field: &str) -> (r: Option<usize>) {
    node.child_by_field_name(field).map(|c| c.id())
}

/// The id of `Node::child(0)`. Nothing is claimed of it.
#[verifier::external_body]
fn first_child_id(node: &tree_sitter::Node) -> (r: Option<usize>) {
    node.child(0).map(|c| c.id())
}

/// The id of `Node::prev_sibling`. Nothing is claimed of it.
#[verifier::external_body]
fn prev_sibling_id(node: &tree_sitter::Node) -> (r: Option<usize>) {
    node.prev_sibling().map(|c| c.id())
}

/// The id of `Node::next_sibling`. Nothing is claimed of it.
#[verifier::external_body]
fn next_sibling_id(node: &tree_sitter::Node) -> (r: Option<usize>) {
    node.next_sibling().map(|c| c.id())
}

/// The ids of `Node::named_children`, in order. Nothing is claimed of them.
#[verifier::external_body]
fn named_child_ids(node: &tree_sitter::Node) -> (r: Vec<usize>) {
    let mut cursor = node.walk();
    node.named_children(&mut cursor).map(|c| c.id()).collect()
}

/// The id of `Node::descendant_for_byte_range(start, end)` on the root of `tree`: the node
/// tree-sitter finds spanning the range. The search starts from the root, which is never null, and
/// gives the null node only for a reversed range, so for offsets that fit the `u32` tree-sitter
/// takes them as, a node is found exactly when `start <= end`. Ids are addresses, so nothing is
/// claimed of which node it is.
#[verifier::external_body]
fn descendant_id(tree: &tree_sitter::Tree, start: usize, end: usize) -> (r: Option<usize>)
    ensures
        start <= u32::MAX && end <= u32::MAX ==> (r is Some <==> start <= end),
{
    tree.root_node().descendant_for_byte_range(start, end).map(|n| n.id())
}

/// The children of `node` under the fields the oracle reads.
fn fields_of(node: &tree_sitter::Node) -> (r: FieldChildren) {
    FieldChildren {
        name: field_child(node, "name"),
        ty: field_child(node, "type"),
        trait_ref: field_child(node, "trait"),
        superclasses: field_child(node, "superclasses"),
        alias: field_child(node, "alias"),
        path: field_child(node, "path"),
        operator: field_child(node, "operator"),
        left: field_child(node, "left"),
        right: field_child(node, "right"),
        attribute: field_child(node, "attribute"),
        field: field_child(node, "field"),
    }
}

/// Whether held nodes are well formed: there is a root, every parent comes before its children,
/// and no span is reversed.
pub open spec fn nodes_wf(nodes: Seq<SyntaxNode>) -> bool {
    &&& nodes.len() >= 1
    &&& forall|k: int| 0 <= k < nodes.len() ==> precedes((#[trigger] nodes[k]).parent, k)
    &&& forall|k: int| 1 <= k < nodes.len() ==> (#[trigger] nodes[k]).parent is Some
    &&& forall|k: int| 0 <= k < nodes.len() ==> (#[trigger] nodes[k]).span.start <= nodes[k].span.end
}

/// The nodes of `tree` as records, in visit order.
fn records_of(tree: &tree_sitter::Tree) -> (r: Vec<SyntaxNode>)
    ensures
        nodes_wf(r@),
{
    let order = visit_order(tree);
    let mut out: Vec<SyntaxNode> = Vec::new();
    let mut k: usize = 0;
    while k < order.len()
        invariant
            k <= order.len(),
            out.len() == k,
            order.len() >= 1,
            forall|j: int| 0 <= j < order.len() ==> precedes((#[trigger] order@[j]).1, j),
            forall|j: int| 1 <= j < order.len() ==> (#[trigger] order@[j]).1 is Some,
            forall|j: int| 0 <= j < k ==> (#[trigger] out@[j]).parent == order@[j].1,
            forall|j: int| 0 <= j < k ==> (#[trigger] out@[j]).span.start <= out@[j].span.end,
        decreases order.len() - k,
    {
        let node = &order[k].0;
        let (id, kind, named, span) = node_facts(node);
        out.push(
            SyntaxNode {
                id,
                kind,
                named,
                span,
                parent: order[k].1,
                first_child: first_child_id(node),
                prev_sibling: prev_sibling_id(node),
                next_sibling: next_sibling_id(node),
                fields: fields_of(node),
                named_children: named_child_ids(node),
            },
        );
        k = k + 1;
    }
    assert forall|j: int| 0 <= j < out.len() implies precedes((#[trigger] out@[j]).parent, j) by {
        assert(precedes(order@[j].1, j));
    }
    out
}

/// The character position at which `b` bytes of `s` end, searching from position `k`, if `b`
/// falls on a character boundary of `s`.
pub open spec fn boundary_from(s: Seq<char>, b: nat, k: int) -> Option<int>
    decreases s.len() + 1 - k,
{
    if k < 0 || k > s.len() {
        None
    } else if bytes_len(s.take(k)) == b {
        Some(k)
    } else if bytes_len(s.take(k)) > b {
        None
    } else {
        boundary_from(s, b, k + 1)
    }
}

/// A boundary found from position `k` lies between `k` and the end of `s`.
proof fn lemma_boundary_in_range(s: Seq<char>, b: nat, k: int)
    ensures
        boundary_from(s, b, k) matches Some(i) ==> k <= i <= s.len(),
    decreases s.len() + 1 - k,
{
    if 0 <= k <= s.len() && bytes_len(s.take(k)) < b {
        lemma_boundary_in_range(s, b, k + 1);
    }
}

/// The text of `s` between byte offsets `start` and `end`: `None` where either offset is not a
/// character boundary of `s`, or `start` comes after `end`.
pub open spec fn text_in(s: Seq<char>, start: nat, end: nat) -> Option<Seq<char>> {
    match (boundary_from(s, start, 0), boundary_from(s, end, 0)) {
        (Some(i), Some(j)) => if i <= j {
            Some(s.subrange(i, j))
        } else {
            None
        },
        _ => None,
    }
}

/// The character position at which the first `b` bytes of `cs` end, if `b` falls on a boundary.
fn char_position(cs: &Vec<char>, b: usize) -> (r: Option<usize>)
    ensures
        match r {
            Some(i) => boundary_from(cs@, b as nat, 0) == Some(i as int),
            None => boundary_from(cs@, b as nat, 0) is None,
        },
{
    let mut k: usize = 0;
    let mut used: usize = 0;
    assert(cs@.take(0) =~= Seq::<char>::empty());
    while k < cs.len() && used < b
        invariant
            k <= cs.len(),
            used <= b,
            used as nat == bytes_len(cs@.take(k as int)),
            boundary_from(cs@, b as nat, 0) == boundary_from(cs@, b as nat, k as int),
        decreases cs.len() - k,
    {
        let w = utf8_width_of(cs[k]);
        assert(cs@.take(k + 1).drop_last() =~= cs@.take(k as int));
        if w > b - used {
            assert(boundary_from(cs@, b as nat, k + 1) is None) by {
                if k + 1 <= cs.len() {
                    assert(bytes_len(cs@.take(k + 1)) > b);
                }
            }
            return None;
        }
        used = used + w;
        k = k + 1;
    }
    if used == b {
        Some(k)
    } else {
        assert(boundary_from(cs@, b as nat, k as int + 1) is None);
        None
    }
}

/// The position of the first node with id `id`, searching from position `k`.
pub open spec fn position_from(nodes: Seq<SyntaxNode>, id: usize, k: int) -> Option<int>
    decreases nodes.len() - k,
{
    if k < 0 || k >= nodes.len() {
        None
    } else if nodes[k].id == id {
        Some(k)
    } else {
        position_from(nodes, id, k + 1)
    }
}

/// The position of the node an id names, where there is an id and a node with it.
pub open spec fn resolved(nodes: Seq<SyntaxNode>, id: Option<usize>) -> Option<int> {
    match id {
        Some(i) => position_from(nodes, i, 0),
        None => None,
    }
}

/// A position found from `k` lies between `k` and the end of the nodes.
proof fn lemma_position_in_range(nodes: Seq<SyntaxNode>, id: usize, k: int)
    ensures
        position_from(nodes, id, k) matches Some(j) ==> k <= j < nodes.len(),
    decreases nodes.len() - k,
{
    if 0 <= k < nodes.len() && nodes[k].id != id {
        lemma_position_in_range(nodes, id, k + 1);
    }
}

/// The position of the node an id names.
fn resolve(nodes: &Vec<SyntaxNode>, id: Option<usize>) -> (r: Option<usize>)
    ensures
        match r {
            Some(j) => resolved(nodes@, id) == Some(j as int) && j < nodes.len(),
            None => resolved(nodes@, id) is None,
        },
{
    let target = match id {
        Some(i) => i,
        None => return None,
    };
    let mut k: usize = 0;
    while k < nodes.len()
        invariant
            k <= nodes.len(),
            id == Some(target),
            position_from(nodes@, target, 0) == position_from(nodes@, target, k as int),
        decreases nodes.len() - k,
    {
        if nodes[k].id == target {
            return Some(k);
        }
        k = k + 1;
    }
    None
}

/// Whether the node at `k` has kind `kind`.
pub open spec fn kind_at(nodes: Seq<SyntaxNode>, k: int, kind: Seq<char>) -> bool {
    0 <= k < nodes.len() && nodes[k].kind@ == kind
}

/// The position of the parent of the node at `k`, where it comes before `k`.
pub open spec fn parent_at(nodes: Seq<SyntaxNode>, k: int) -> Option<int> {
    if 0 <= k < nodes.len() {
        match nodes[k].parent {
            Some(p) => if p < k {
                Some(p as int)
            } else {
                None
            },
            None => None,
        }
    } else {
        None
    }
}

/// The parent of the node at `k`.
fn parent_of(nodes: &Vec<SyntaxNode>, k: usize) -> (r: Option<usize>)
    requires
        nodes_wf(nodes@),
        k < nodes.len(),
    ensures
        match r {
            Some(p) => parent_at(nodes@, k as int) == Some(p as int) && p < k,
            None => parent_at(nodes@, k as int) is None,
        },
{
    nodes[k].parent
}

/// The nearest named node at or above `k`.
pub open spec fn named_at_or_above(nodes: Seq<SyntaxNode>, k: int) -> Option<int>
    decreases k,
{
    if k < 0 || k >= nodes.len() {
        None
    } else if nodes[k].named {
        Some(k)
    } else {
        match parent_at(nodes, k) {
            Some(p) => named_at_or_above(nodes, p),
            None => None,
        }
    }
}

/// The nearest named node at or above `k`.
fn climb_to_named(nodes: &Vec<SyntaxNode>, k: usize) -> (r: Option<usize>)
    requires
        nodes_wf(nodes@),
        k < nodes.len(),
    ensures
        match r {
            Some(c) => named_at_or_above(nodes@, k as int) == Some(c as int) && c < nodes.len(),
            None => named_at_or_above(nodes@, k as int) is None,
        },
{
    let mut cur = k;
    while !nodes[cur].named
        invariant
            nodes_wf(nodes@),
            cur < nodes.len(),
            named_at_or_above(nodes@, k as int) == named_at_or_above(nodes@, cur as int),
        decreases cur,
    {
        match parent_of(nodes, cur) {
            Some(p) => {
                cur = p;
            },
            None => return None,
        }
    }
    Some(cur)
}

/// The span of a node's child under the field an id names.
pub open spec fn field_span(nodes: Seq<SyntaxNode>, id: Option<usize>) -> Option<ByteSpan> {
    match resolved(nodes, id) {
        Some(j) => Some(nodes[j].span),
        None => None,
    }
}

/// The span of a declaration's name: its `name` child, or the `type` child of an `impl_item`.
pub open spec fn declaration_name_span(nodes: Seq<SyntaxNode>, k: int) -> Option<ByteSpan> {
    match field_span(nodes, nodes[k].fields.name) {
        Some(s) => Some(s),
        None => if nodes[k].kind@ == "impl_item"@ {
            field_span(nodes, nodes[k].fields.ty)
        } else {
            None
        },
    }
}

/// The full span persisted for a declaration: that of a wrapping `decorated_definition`, else its
/// own.
pub open spec fn declaration_full_span(nodes: Seq<SyntaxNode>, k: int) -> ByteSpan {
    match parent_at(nodes, k) {
        Some(p) => if nodes[p].kind@ == "decorated_definition"@ {
            nodes[p].span
        } else {
            nodes[k].span
        },
        None => nodes[k].span,
    }
}

/// The declaration the node at `k` is, if it is a persisted declaration with a name.
pub open spec fn declaration_at(nodes: Seq<SyntaxNode>, language: Language, k: int) -> Option<SyntaxDeclaration> {
    if declaration_kind(language, nodes[k].kind@) {
        match declaration_name_span(nodes, k) {
            Some(name_span) => Some(
                SyntaxDeclaration {
                    node_kind: nodes[k].kind,
                    name_span,
                    full_span: declaration_full_span(nodes, k),
                },
            ),
            None => None,
        }
    } else {
        None
    }
}

/// A sequence of one optional item.
pub open spec fn optional_seq<A>(o: Option<A>) -> Seq<A> {
    match o {
        Some(a) => seq![a],
        None => Seq::empty(),
    }
}

/// The declarations at and above `k`, innermost first.
pub open spec fn declarations_above(nodes: Seq<SyntaxNode>, language: Language, k: int) -> Seq<SyntaxDeclaration>
    decreases k,
{
    if k < 0 || k >= nodes.len() {
        Seq::empty()
    } else {
        optional_seq(declaration_at(nodes, language, k)) + match parent_at(nodes, k) {
            Some(p) => declarations_above(nodes, language, p),
            None => Seq::empty(),
        }
    }
}

/// The declarations among the first `n` nodes, in visit order.
pub open spec fn declarations_among(nodes: Seq<SyntaxNode>, language: Language, n: int) -> Seq<SyntaxDeclaration>
    decreases n,
{
    if n <= 0 || n > nodes.len() {
        Seq::empty()
    } else {
        declarations_among(nodes, language, n - 1) + optional_seq(declaration_at(nodes, language, n - 1))
    }
}

/// The span of the child an id names.
fn field_span_of(nodes: &Vec<SyntaxNode>, id: Option<usize>) -> (r: Option<ByteSpan>)
    ensures
        r == field_span(nodes@, id),
{
    match resolve(nodes, id) {
        Some(j) => Some(nodes[j].span),
        None => None,
    }
}

/// The declaration the node at `k` is.
fn declaration_of(nodes: &Vec<SyntaxNode>, language: Language, k: usize) -> (r: Option<SyntaxDeclaration>)
    requires
        nodes_wf(nodes@),
        k < nodes.len(),
    ensures
        r == declaration_at(nodes@, language, k as int),
{
    let node = &nodes[k];
    if !is_declaration_kind(language, node.kind.as_str()) {
        return None;
    }
    let name_span = match field_span_of(nodes, node.fields.name) {
        Some(s) => s,
        None => {
            if str_eq(node.kind.as_str(), "impl_item") {
                match field_span_of(nodes, node.fields.ty) {
                    Some(s) => s,
                    None => return None,
                }
            } else {
                return None;
            }
        },
    };
    let full_span = match parent_of(nodes, k) {
        Some(p) => if str_eq(nodes[p].kind.as_str(), "decorated_definition") {
            nodes[p].span
        } else {
            node.span
        },
        None => node.span,
    };
    Some(SyntaxDeclaration { node_kind: node.kind.clone(), name_span, full_span })
}

/// Whether an optional position is absent or names one of the nodes.
pub open spec fn located_in(nodes: Seq<SyntaxNode>, at: Option<int>) -> bool {
    match at {
        Some(k) => 0 <= k < nodes.len(),
        None => true,
    }
}

/// An optional position as an integer.
pub open spec fn position_of(at: Option<usize>) -> Option<int> {
    match at {
        Some(k) => Some(k as int),
        None => None,
    }
}

/// The declarations enclosing the node at `at`, innermost first; none where no node was found.
pub open spec fn declarations_from(nodes: Seq<SyntaxNode>, language: Language, at: Option<int>) -> Seq<SyntaxDeclaration> {
    match at {
        Some(k) => declarations_above(nodes, language, k),
        None => Seq::empty(),
    }
}

/// The text of the `type` (or, for `trait_side`, the `trait`) child of the nearest `impl_item` at
/// or above `k` that has one.
pub open spec fn impl_text_above(nodes: Seq<SyntaxNode>, source: Seq<char>, k: int, trait_side: bool) -> Option<Seq<char>>
    decreases k,
{
    if k < 0 || k >= nodes.len() {
        None
    } else {
        let field = if trait_side {
            nodes[k].fields.trait_ref
        } else {
            nodes[k].fields.ty
        };
        if nodes[k].kind@ == "impl_item"@ && resolved(nodes, field) is Some {
            let j = resolved(nodes, field)->0;
            text_in(source, nodes[j].span.start as nat, nodes[j].span.end as nat)
        } else {
            match parent_at(nodes, k) {
                Some(p) => impl_text_above(nodes, source, p, trait_side),
                None => None,
            }
        }
    }
}

/// The same text, from an optional starting node.
pub open spec fn impl_text_from(nodes: Seq<SyntaxNode>, source: Seq<char>, at: Option<int>, trait_side: bool) -> Option<Seq<char>> {
    match at {
        Some(k) => impl_text_above(nodes, source, k, trait_side),
        None => None,
    }
}

/// Whether a node kind is a dotted construct (`attribute` or `dotted_name`).
pub open spec fn dotted_kind(kind: Seq<char>) -> bool {
    kind == "attribute"@ || kind == "dotted_name"@
}

/// The spans of the dotted constructs at and above `k`, innermost first.
pub open spec fn dotted_above(nodes: Seq<SyntaxNode>, k: int) -> Seq<ByteSpan>
    decreases k,
{
    if k < 0 || k >= nodes.len() {
        Seq::empty()
    } else {
        (if dotted_kind(nodes[k].kind@) {
            seq![nodes[k].span]
        } else {
            Seq::empty()
        }) + match parent_at(nodes, k) {
            Some(p) => dotted_above(nodes, p),
            None => Seq::empty(),
        }
    }
}

/// The same spans, from an optional starting node.
pub open spec fn dotted_from(nodes: Seq<SyntaxNode>, at: Option<int>) -> Seq<ByteSpan> {
    match at {
        Some(k) => dotted_above(nodes, k),
        None => Seq::empty(),
    }
}

/// The opt-text view of a borrowed string.
pub open spec fn owned_text(o: Option<String>) -> Option<Seq<char>> {
    match o {
        Some(t) => Some(t@),
        None => None,
    }
}

/// The position of the child an id names, where it comes after position `k`: a field child is
/// visited after its parent.
pub open spec fn child_after(nodes: Seq<SyntaxNode>, id: Option<usize>, k: int) -> Option<int> {
    match resolved(nodes, id) {
        Some(j) => if k < j < nodes.len() {
            Some(j)
        } else {
            None
        },
        None => None,
    }
}

/// The terminal identifier token of a type or trait node: the identifier inside a generic type,
/// the terminal segment of a qualified path, or the bare identifier itself.
pub open spec fn name_token(nodes: Seq<SyntaxNode>, k: int) -> Option<int>
    decreases nodes.len() - k,
{
    if k < 0 || k >= nodes.len() {
        None
    } else {
        let kind = nodes[k].kind@;
        if kind == "type_identifier"@ || kind == "identifier"@ {
            Some(k)
        } else if kind == "generic_type"@ {
            match child_after(nodes, nodes[k].fields.ty, k) {
                Some(j) => name_token(nodes, j),
                None => None,
            }
        } else if kind == "scoped_type_identifier"@ || kind == "scoped_identifier"@ {
            match child_after(nodes, nodes[k].fields.name, k) {
                Some(j) => name_token(nodes, j),
                None => None,
            }
        } else {
            None
        }
    }
}

/// The trait and type name tokens of the `impl Trait for Type` block at `k`.
pub open spec fn trait_impl_at(nodes: Seq<SyntaxNode>, k: int) -> Option<TraitImpl> {
    if nodes[k].kind@ == "impl_item"@ {
        match (resolved(nodes, nodes[k].fields.trait_ref), resolved(nodes, nodes[k].fields.ty)) {
            (Some(t), Some(y)) => match (name_token(nodes, t), name_token(nodes, y)) {
                (Some(a), Some(b)) => Some(TraitImpl { type_name_span: nodes[b].span, trait_name_span: nodes[a].span }),
                _ => None,
            },
            _ => None,
        }
    } else {
        None
    }
}

/// The trait impls among the first `n` nodes, in visit order.
pub open spec fn trait_impls_among(nodes: Seq<SyntaxNode>, n: int) -> Seq<TraitImpl>
    decreases n,
{
    if n <= 0 || n > nodes.len() {
        Seq::empty()
    } else {
        trait_impls_among(nodes, n - 1) + optional_seq(trait_impl_at(nodes, n - 1))
    }
}

/// The terminal identifier token of a Python base-class expression: the bare identifier, or the
/// terminal segment of a dotted name.
pub open spec fn base_name_token(nodes: Seq<SyntaxNode>, k: int) -> Option<int>
    decreases nodes.len() - k,
{
    if k < 0 || k >= nodes.len() {
        None
    } else if nodes[k].kind@ == "identifier"@ {
        Some(k)
    } else if nodes[k].kind@ == "attribute"@ {
        match child_after(nodes, nodes[k].fields.attribute, k) {
            Some(j) => base_name_token(nodes, j),
            None => None,
        }
    } else {
        None
    }
}

/// The name-token spans of the base expressions an id list names, skipping those without one.
pub open spec fn base_spans(nodes: Seq<SyntaxNode>, ids: Seq<usize>) -> Seq<ByteSpan>
    decreases ids.len(),
{
    if ids.len() == 0 {
        Seq::empty()
    } else {
        base_spans(nodes, ids.drop_last()) + match resolved(nodes, Some(ids.last())) {
            Some(j) => match base_name_token(nodes, j) {
                Some(t) => seq![nodes[t].span],
                None => Seq::empty(),
            },
            None => Seq::empty(),
        }
    }
}

/// A class and its bases as values.
pub type ClassBasesView = (ByteSpan, Seq<ByteSpan>);

/// The values of a class and its bases.
pub open spec fn class_bases_view(c: ClassBases) -> ClassBasesView {
    (c.class_name_span, c.base_name_spans@)
}

/// The class definition at `k` and its bases.
pub open spec fn class_bases_at(nodes: Seq<SyntaxNode>, k: int) -> Option<ClassBasesView> {
    if nodes[k].kind@ == "class_definition"@ {
        match resolved(nodes, nodes[k].fields.name) {
            Some(n) => Some(
                (
                    nodes[n].span,
                    match resolved(nodes, nodes[k].fields.superclasses) {
                        Some(sc) => base_spans(nodes, nodes[sc].named_children@),
                        None => Seq::empty(),
                    },
                ),
            ),
            None => None,
        }
    } else {
        None
    }
}

/// The class definitions among the first `n` nodes, in visit order.
pub open spec fn class_bases_among(nodes: Seq<SyntaxNode>, n: int) -> Seq<ClassBasesView>
    decreases n,
{
    if n <= 0 || n > nodes.len() {
        Seq::empty()
    } else {
        class_bases_among(nodes, n - 1) + optional_seq(class_bases_at(nodes, n - 1))
    }
}

/// The terminal segment of a Rust use path at `k`: the node itself for an identifier or a path
/// keyword, the `name` child of a scoped identifier.
pub open spec fn use_path_terminal(nodes: Seq<SyntaxNode>, k: int) -> Option<int> {
    let kind = nodes[k].kind@;
    if kind == "identifier"@ || kind == "crate"@ || kind == "self"@ || kind == "super"@ {
        Some(k)
    } else if kind == "scoped_identifier"@ {
        resolved(nodes, nodes[k].fields.name)
    } else {
        None
    }
}

/// The alias binding the node at `k` declares: a Python `aliased_import`, or a Rust
/// `use_as_clause` whose path has a terminal segment.
pub open spec fn alias_at(nodes: Seq<SyntaxNode>, language: Language, k: int) -> Option<AliasBinding> {
    match language {
        Language::Python => if nodes[k].kind@ == "aliased_import"@ {
            match (resolved(nodes, nodes[k].fields.name), resolved(nodes, nodes[k].fields.alias)) {
                (Some(t), Some(a)) => Some(
                    AliasBinding {
                        alias_name_span: nodes[a].span,
                        target_token_span: nodes[t].span,
                        binding_span: nodes[k].span,
                    },
                ),
                _ => None,
            }
        } else {
            None
        },
        Language::Rust => if nodes[k].kind@ == "use_as_clause"@ {
            match (resolved(nodes, nodes[k].fields.path), resolved(nodes, nodes[k].fields.alias)) {
                (Some(p), Some(a)) => match use_path_terminal(nodes, p) {
                    Some(t) => Some(
                        AliasBinding {
                            alias_name_span: nodes[a].span,
                            target_token_span: nodes[t].span,
                            binding_span: nodes[k].span,
                        },
                    ),
                    None => None,
                },
                _ => None,
            }
        } else {
            None
        },
    }
}

/// The alias bindings among the first `n` nodes, in visit order.
pub open spec fn aliases_among(nodes: Seq<SyntaxNode>, language: Language, n: int) -> Seq<AliasBinding>
    decreases n,
{
    if n <= 0 || n > nodes.len() {
        Seq::empty()
    } else {
        aliases_among(nodes, language, n - 1) + optional_seq(alias_at(nodes, language, n - 1))
    }
}

/// The child an id names, where it comes after `k`.
fn child_after_exec(nodes: &Vec<SyntaxNode>, id: Option<usize>, k: usize) -> (r: Option<usize>)
    ensures
        position_of(r) == child_after(nodes@, id, k as int),
        r matches Some(j) ==> j < nodes.len(),
{
    match resolve(nodes, id) {
        Some(j) => if k < j {
            Some(j)
        } else {
            None
        },
        None => None,
    }
}

/// The terminal identifier token of the type or trait node at `k`.
fn name_token_of(nodes: &Vec<SyntaxNode>, k: usize) -> (r: Option<usize>)
    requires
        k < nodes.len(),
    ensures
        position_of(r) == name_token(nodes@, k as int),
        r matches Some(j) ==> j < nodes.len(),
    decreases nodes.len() - k,
{
    let kind = nodes[k].kind.as_str();
    if str_eq(kind, "type_identifier") || str_eq(kind, "identifier") {
        Some(k)
    } else if str_eq(kind, "generic_type") {
        match child_after_exec(nodes, nodes[k].fields.ty, k) {
            Some(j) => name_token_of(nodes, j),
            None => None,
        }
    } else if str_eq(kind, "scoped_type_identifier") || str_eq(kind, "scoped_identifier") {
        match child_after_exec(nodes, nodes[k].fields.name, k) {
            Some(j) => name_token_of(nodes, j),
            None => None,
        }
    } else {
        None
    }
}

/// The terminal identifier token of the base-class expression at `k`.
fn base_name_token_of(nodes: &Vec<SyntaxNode>, k: usize) -> (r: Option<usize>)
    requires
        k < nodes.len(),
    ensures
        position_of(r) == base_name_token(nodes@, k as int),
        r matches Some(j) ==> j < nodes.len(),
    decreases nodes.len() - k,
{
    let kind = nodes[k].kind.as_str();
    if str_eq(kind, "identifier") {
        Some(k)
    } else if str_eq(kind, "attribute") {
        match child_after_exec(nodes, nodes[k].fields.attribute, k) {
            Some(j) => base_name_token_of(nodes, j),
            None => None,
        }
    } else {
        None
    }
}

/// The terminal segment of the Rust use path at `k`.
fn use_path_terminal_of(nodes: &Vec<SyntaxNode>, k: usize) -> (r: Option<usize>)
    requires
        k < nodes.len(),
    ensures
        position_of(r) == use_path_terminal(nodes@, k as int),
        r matches Some(j) ==> j < nodes.len(),
{
    let kind = nodes[k].kind.as_str();
    if str_eq(kind, "identifier") || str_eq(kind, "crate") || str_eq(kind, "self") || str_eq(kind, "super") {
        Some(k)
    } else if str_eq(kind, "scoped_identifier") {
        resolve(nodes, nodes[k].fields.name)
    } else {
        None
    }
}

/// The trait impl the node at `k` is.
fn trait_impl_of(nodes: &Vec<SyntaxNode>, k: usize) -> (r: Option<TraitImpl>)
    requires
        k < nodes.len(),
    ensures
        r == trait_impl_at(nodes@, k as int),
{
    if !str_eq(nodes[k].kind.as_str(), "impl_item") {
        return None;
    }
    let t = match resolve(nodes, nodes[k].fields.trait_ref) {
        Some(t) => t,
        None => return None,
    };
    let y = match resolve(nodes, nodes[k].fields.ty) {
        Some(y) => y,
        None => return None,
    };
    match (name_token_of(nodes, t), name_token_of(nodes, y)) {
        (Some(a), Some(b)) => Some(TraitImpl { type_name_span: nodes[b].span, trait_name_span: nodes[a].span }),
        _ => None,
    }
}

/// The name-token spans of the base expressions `ids` names.
fn base_spans_of(nodes: &Vec<SyntaxNode>, ids: &Vec<usize>) -> (r: Vec<ByteSpan>)
    ensures
        r@ == base_spans(nodes@, ids@),
{
    let mut out: Vec<ByteSpan> = Vec::new();
    let mut i: usize = 0;
    while i < ids.len()
        invariant
            i <= ids.len(),
            out@ == base_spans(nodes@, ids@.take(i as int)),
        decreases ids.len() - i,
    {
        assert(ids@.take(i + 1).drop_last() =~= ids@.take(i as int));
        match resolve(nodes, Some(ids[i])) {
            Some(j) => match base_name_token_of(nodes, j) {
                Some(t) => out.push(nodes[t].span),
                None => {},
            },
            None => {},
        }
        assert(out@ =~= base_spans(nodes@, ids@.take(i + 1)));
        i = i + 1;
    }
    assert(ids@.take(ids.len() as int) =~= ids@);
    out
}

/// The class definition at `k` and its bases.
fn class_bases_of(nodes: &Vec<SyntaxNode>, k: usize) -> (r: Option<ClassBases>)
    requires
        k < nodes.len(),
    ensures
        match r {
            Some(c) => class_bases_at(nodes@, k as int) == Some(class_bases_view(c)),
            None => class_bases_at(nodes@, k as int) is None,
        },
{
    if !str_eq(nodes[k].kind.as_str(), "class_definition") {
        return None;
    }
    let n = match resolve(nodes, nodes[k].fields.name) {
        Some(n) => n,
        None => return None,
    };
    let base_name_spans = match resolve(nodes, nodes[k].fields.superclasses) {
        Some(sc) => base_spans_of(nodes, &nodes[sc].named_children),
        None => Vec::new(),
    };
    Some(ClassBases { class_name_span: nodes[n].span, base_name_spans })
}

/// The alias binding the node at `k` declares.
fn alias_of(nodes: &Vec<SyntaxNode>, language: Language, k: usize) -> (r: Option<AliasBinding>)
    requires
        k < nodes.len(),
    ensures
        r == alias_at(nodes@, language, k as int),
{
    let kind = nodes[k].kind.as_str();
    match language {
        Language::Python => {
            if !str_eq(kind, "aliased_import") {
                return None;
            }
            match (resolve(nodes, nodes[k].fields.name), resolve(nodes, nodes[k].fields.alias)) {
                (Some(t), Some(a)) => Some(
                    AliasBinding {
                        alias_name_span: nodes[a].span,
                        target_token_span: nodes[t].span,
                        binding_span: nodes[k].span,
                    },
                ),
                _ => None,
            }
        },
        Language::Rust => {
            if !str_eq(kind, "use_as_clause") {
                return None;
            }
            match (resolve(nodes, nodes[k].fields.path), resolve(nodes, nodes[k].fields.alias)) {
                (Some(p), Some(a)) => match use_path_terminal_of(nodes, p) {
                    Some(t) => Some(
                        AliasBinding {
                            alias_name_span: nodes[a].span,
                            target_token_span: nodes[t].span,
                            binding_span: nodes[k].span,
                        },
                    ),
                    None => None,
                },
                _ => None,
            }
        },
    }
}

/// A construct as values: its kind, its span and its operator text.
pub type ConstructView = (Seq<char>, ByteSpan, Option<Seq<char>>);

/// The values of a construct.
pub open spec fn construct_view(c: ConstructAt) -> ConstructView {
    (c.kind@, c.span, owned_text(c.operator))
}

/// The text of the child an id names.
pub open spec fn child_text(nodes: Seq<SyntaxNode>, source: Seq<char>, id: Option<usize>) -> Option<Seq<char>> {
    match resolved(nodes, id) {
        Some(j) => text_in(source, nodes[j].span.start as nat, nodes[j].span.end as nat),
        None => None,
    }
}

/// The operator token of the construct at `c`: the `operator` child of a binary or
/// compound-assignment expression, the leading token of a unary expression.
pub open spec fn operator_text(nodes: Seq<SyntaxNode>, source: Seq<char>, c: int) -> Option<Seq<char>> {
    let kind = nodes[c].kind@;
    if kind == "binary_expression"@ || kind == "compound_assignment_expr"@ {
        child_text(nodes, source, nodes[c].fields.operator)
    } else if kind == "unary_expression"@ {
        child_text(nodes, source, nodes[c].first_child)
    } else {
        None
    }
}

/// The construct at the node at `at`: the nearest named node at or above it, with its operator.
pub open spec fn construct_from(nodes: Seq<SyntaxNode>, source: Seq<char>, at: Option<int>) -> Option<ConstructView> {
    match at {
        Some(k) => match named_at_or_above(nodes, k) {
            Some(c) => Some((nodes[c].kind@, nodes[c].span, operator_text(nodes, source, c))),
            None => None,
        },
        None => None,
    }
}

/// Whether the sibling an id names is a named node.
pub open spec fn named_sibling(nodes: Seq<SyntaxNode>, id: Option<usize>) -> bool {
    match resolved(nodes, id) {
        Some(j) => nodes[j].named,
        None => false,
    }
}

/// The shape of the range whose operator token is the node at `at`.
pub open spec fn range_shape_from(nodes: Seq<SyntaxNode>, at: Option<int>) -> Option<RangeShape> {
    match at {
        Some(k) => if 0 <= k < nodes.len() && !nodes[k].named && (nodes[k].kind@ == ".."@ || nodes[k].kind@
            == "..="@) {
            match parent_at(nodes, k) {
                Some(p) => if nodes[p].kind@ == "range_pattern"@ {
                    Some(
                        RangeShape {
                            has_start: nodes[p].fields.left is Some,
                            has_end: nodes[p].fields.right is Some,
                            inclusive: nodes[k].kind@ == "..="@,
                        },
                    )
                } else if nodes[p].kind@ == "range_expression"@ {
                    Some(
                        RangeShape {
                            has_start: named_sibling(nodes, nodes[k].prev_sibling),
                            has_end: named_sibling(nodes, nodes[k].next_sibling),
                            inclusive: nodes[k].kind@ == "..="@,
                        },
                    )
                } else {
                    None
                },
                None => None,
            }
        } else {
            None
        },
        None => None,
    }
}

/// Whether the named node at or above `at` is the `name` identifier of a `mod_item`.
pub open spec fn module_name_from(nodes: Seq<SyntaxNode>, at: Option<int>) -> bool {
    match at {
        Some(k) => match named_at_or_above(nodes, k) {
            Some(c) => nodes[c].kind@ == "identifier"@ && match parent_at(nodes, c) {
                Some(p) => nodes[p].kind@ == "mod_item"@ && field_span(nodes, nodes[p].fields.name) == Some(
                    nodes[c].span,
                ),
                None => false,
            },
            None => false,
        },
        None => false,
    }
}

/// The `use_list` holding a `self` token at `c`: its parent, or its grandparent through a
/// `use_as_clause`.
pub open spec fn self_holder(nodes: Seq<SyntaxNode>, c: int) -> Option<int> {
    match parent_at(nodes, c) {
        Some(h) => if nodes[h].kind@ == "use_as_clause"@ {
            parent_at(nodes, h)
        } else {
            Some(h)
        },
        None => None,
    }
}

/// For a `self` token at `at` inside a `use_list`, the span of the terminal segment of the
/// enclosing use path.
pub open spec fn use_list_self_from(nodes: Seq<SyntaxNode>, at: Option<int>) -> Option<ByteSpan> {
    match at {
        Some(k) => match named_at_or_above(nodes, k) {
            Some(c) => if nodes[c].kind@ == "self"@ {
                match self_holder(nodes, c) {
                    Some(h) => if nodes[h].kind@ == "use_list"@ {
                        match parent_at(nodes, h) {
                            Some(s) => if nodes[s].kind@ == "scoped_use_list"@ {
                                match resolved(nodes, nodes[s].fields.path) {
                                    Some(path) => match use_path_terminal(nodes, path) {
                                        Some(t) => Some(nodes[t].span),
                                        None => None,
                                    },
                                    None => None,
                                }
                            } else {
                                None
                            },
                            None => None,
                        }
                    } else {
                        None
                    },
                    None => None,
                }
            } else {
                None
            },
            None => None,
        },
        None => None,
    }
}

/// Whether the named node at or above `at` is a `self` token that is the `path` child of a
/// scoped identifier or scoped use list.
pub open spec fn path_start_self_from(nodes: Seq<SyntaxNode>, at: Option<int>) -> bool {
    match at {
        Some(k) => match named_at_or_above(nodes, k) {
            Some(c) => nodes[c].kind@ == "self"@ && match parent_at(nodes, c) {
                Some(p) => (nodes[p].kind@ == "scoped_identifier"@ || nodes[p].kind@ == "scoped_use_list"@)
                    && nodes[p].fields.path == Some(nodes[c].id),
                None => false,
            },
            None => false,
        },
        None => false,
    }
}

/// The number of `super` tokens in the path chain at `k`.
pub open spec fn super_count(nodes: Seq<SyntaxNode>, k: int) -> nat
    decreases nodes.len() - k,
{
    if k < 0 || k >= nodes.len() {
        0
    } else if nodes[k].kind@ == "super"@ {
        1
    } else if nodes[k].kind@ == "scoped_identifier"@ {
        (match child_after(nodes, nodes[k].fields.path, k) {
            Some(j) => super_count(nodes, j),
            None => 0,
        }) + (match resolved(nodes, nodes[k].fields.name) {
            Some(j) => if nodes[j].kind@ == "super"@ {
                1nat
            } else {
                0nat
            },
            None => 0,
        })
    } else {
        0
    }
}

/// The depth of a `super` token at `at`: one more than the `super` segments before it in its path.
pub open spec fn super_depth_from(nodes: Seq<SyntaxNode>, at: Option<int>) -> Option<nat> {
    match at {
        Some(k) => match named_at_or_above(nodes, k) {
            Some(c) => if nodes[c].kind@ == "super"@ {
                match parent_at(nodes, c) {
                    Some(p) => if nodes[p].kind@ == "scoped_identifier"@ && nodes[p].fields.name == Some(
                        nodes[c].id,
                    ) {
                        Some(
                            match child_after(nodes, nodes[p].fields.path, p) {
                                Some(j) => super_count(nodes, j),
                                None => 0,
                            } + 1,
                        )
                    } else {
                        Some(1)
                    },
                    None => Some(1),
                }
            } else {
                None
            },
            None => None,
        },
        None => None,
    }
}

/// A path chain at `k` holds no more `super` tokens than there are nodes from `k` on.
proof fn lemma_super_count_bound(nodes: Seq<SyntaxNode>, k: int)
    requires
        0 <= k < nodes.len(),
    ensures
        super_count(nodes, k) <= nodes.len() - k,
    decreases nodes.len() - k,
{
    if nodes[k].kind@ == "scoped_identifier"@ {
        match child_after(nodes, nodes[k].fields.path, k) {
            Some(j) => lemma_super_count_bound(nodes, j),
            None => {},
        }
    }
}

/// The number of `super` tokens in the path chain at `k`.
fn super_count_of(nodes: &Vec<SyntaxNode>, k: usize) -> (r: usize)
    requires
        k < nodes.len(),
    ensures
        r == super_count(nodes@, k as int),
    decreases nodes.len() - k,
{
    proof {
        lemma_super_count_bound(nodes@, k as int);
    }
    let kind = nodes[k].kind.as_str();
    if str_eq(kind, "super") {
        1
    } else if str_eq(kind, "scoped_identifier") {
        let path_count = match child_after_exec(nodes, nodes[k].fields.path, k) {
            Some(j) => super_count_of(nodes, j),
            None => 0,
        };
        let name_count: usize = match resolve(nodes, nodes[k].fields.name) {
            Some(j) => if str_eq(nodes[j].kind.as_str(), "super") {
                1
            } else {
                0
            },
            None => 0,
        };
        path_count + name_count
    } else {
        0
    }
}

/// Whether span `a` contains span `b`.
pub open spec fn spans_contain(a: ByteSpan, b: ByteSpan) -> bool {
    a.start <= b.start && b.end <= a.end
}

/// Whether a walk that descends only into nodes containing `span` reaches the node at `k`.
pub open spec fn reached(nodes: Seq<SyntaxNode>, span: ByteSpan, k: int) -> bool
    decreases k,
{
    if k < 0 || k >= nodes.len() {
        false
    } else {
        match parent_at(nodes, k) {
            Some(p) => reached(nodes, span, p) && spans_contain(nodes[p].span, span),
            None => true,
        }
    }
}

/// Whether the node at `k` is the `field` child of a `field_expression`: a tuple-field index.
pub open spec fn tuple_field_index(nodes: Seq<SyntaxNode>, k: int) -> bool {
    match parent_at(nodes, k) {
        Some(p) => nodes[p].kind@ == "field_expression"@ && nodes[p].fields.field == Some(nodes[k].id),
        None => false,
    }
}

/// Whether the node at `k` is a name node in `language`: an identifier-like kind, or in Rust an
/// integer literal in tuple-field position.
pub open spec fn is_name_node(nodes: Seq<SyntaxNode>, language: Language, k: int) -> bool {
    name_node_kind(language, nodes[k].kind@) || (language == Language::Rust && nodes[k].kind@ == "integer_literal"@
        && tuple_field_index(nodes, k))
}

/// Whether the node at `k` is a name node that the walk reaches and that contains `span`.
pub open spec fn name_candidate(nodes: Seq<SyntaxNode>, language: Language, span: ByteSpan, k: int) -> bool {
    0 <= k < nodes.len() && reached(nodes, span, k) && spans_contain(nodes[k].span, span) && is_name_node(
        nodes,
        language,
        k,
    )
}

/// The width of the node at `k`.
pub open spec fn node_width(nodes: Seq<SyntaxNode>, k: int) -> int {
    nodes[k].span.end - nodes[k].span.start
}

/// Whether the node at `k` is a name node.
fn is_name_node_at(nodes: &Vec<SyntaxNode>, language: Language, k: usize) -> (r: bool)
    requires
        nodes_wf(nodes@),
        k < nodes.len(),
    ensures
        r == is_name_node(nodes@, language, k as int),
{
    let kind = nodes[k].kind.as_str();
    if is_name_node_kind(language, kind) {
        return true;
    }
    match language {
        Language::Python => false,
        Language::Rust => {
            if !str_eq(kind, "integer_literal") {
                return false;
            }
            match parent_of(nodes, k) {
                Some(p) => str_eq(nodes[p].kind.as_str(), "field_expression") && match nodes[p].fields.field {
                    Some(id) => id == nodes[k].id,
                    None => false,
                },
                None => false,
            }
        },
    }
}

/// Whether `r` is the smallest name node containing `span` that a walk descending only into
/// nodes containing it reaches: of equally small ones, the first visited; `None` where there is
/// none.
pub open spec fn smallest_name_node(nodes: Seq<SyntaxNode>, language: Language, span: ByteSpan, r: Option<ByteSpan>) -> bool {
    &&& (r is None <==> forall|k: int| !#[trigger] name_candidate(nodes, language, span, k))
    &&& (r matches Some(b) ==> exists|k: int|
        #[trigger] name_candidate(nodes, language, span, k) && nodes[k].span == b && (forall|j: int|
            #[trigger] name_candidate(nodes, language, span, j) ==> node_width(nodes, k) <= node_width(nodes, j)) && (
        forall|j: int|
            0 <= j < k && #[trigger] name_candidate(nodes, language, span, j) ==> node_width(nodes, k) < node_width(
                nodes,
                j,
            )))
}

/// The names of the inline modules among declarations listed innermost first, outermost first.
pub open spec fn module_names(source: Seq<char>, decls: Seq<SyntaxDeclaration>) -> Seq<Seq<char>>
    decreases decls.len(),
{
    if decls.len() == 0 {
        Seq::empty()
    } else {
        let d = decls[0];
        module_names(source, decls.drop_first()) + if d.node_kind@ == "mod_item"@ && text_in(
            source,
            d.name_span.start as nat,
            d.name_span.end as nat,
        ) is Some {
            seq![text_in(source, d.name_span.start as nat, d.name_span.end as nat)->0]
        } else {
            Seq::empty()
        }
    }
}

/// Spans, each with its text.
pub open spec fn spans_with_text(source: Seq<char>, spans: Seq<ByteSpan>) -> Seq<(ByteSpan, Option<Seq<char>>)> {
    spans.map_values(|b: ByteSpan| (b, text_in(source, b.start as nat, b.end as nat)))
}

/// Whether the facts at a span hold what the tree shows there, given the node found at the span's
/// start (`p`) and the node found at the span (`q`).
pub open spec fn site_facts_at(
    nodes: Seq<SyntaxNode>,
    source: Seq<char>,
    language: Language,
    p: Option<int>,
    q: Option<int>,
    f: SiteFacts,
) -> bool {
    &&& match f.construct {
        Some(c) => construct_from(nodes, source, q) == Some(construct_view(c)),
        None => construct_from(nodes, source, q) is None,
    }
    &&& f.has_construct == q is Some
    &&& ostr(f.impl_self_type) == impl_text_from(nodes, source, p, false)
    &&& ostr(f.impl_trait_name) == impl_text_from(nodes, source, p, true)
    &&& f.range_shape == range_shape_from(nodes, q)
    &&& ostr(f.use_list_terminal) == match use_list_self_from(nodes, q) {
        Some(t) => text_in(source, t.start as nat, t.end as nat),
        None => None,
    }
    &&& f.path_start_self == path_start_self_from(nodes, q)
    &&& super_depth_from(nodes, q) == match f.super_depth {
        Some(d) => Some(d as nat),
        None => None,
    }
    &&& f.inline_modules@.map_values(|m: String| m@) == module_names(source, declarations_from(nodes, language, p))
    &&& dotted_view(f.dotted_constructs@) == spans_with_text(source, dotted_from(nodes, q))
}

/// The text of `source` between the byte offsets of `span`, or `None` where the span is reversed or
/// does not fall on character boundaries.
pub fn source_text_at(source: &str, span: ByteSpan) -> (r: Option<String>)
    ensures
        ostr(r) == text_in(source@, span.start as nat, span.end as nat),
{
    let cs = chars_of(source);
    proof {
        lemma_boundary_in_range(cs@, span.start as nat, 0);
        lemma_boundary_in_range(cs@, span.end as nat, 0);
    }
    match (char_position(&cs, span.start), char_position(&cs, span.end)) {
        (Some(i), Some(j)) => {
            if i <= j {
                Some(source.substring_char(i, j).to_owned())
            } else {
                None
            }
        },
        _ => None,
    }
}

/// A parsed syntax tree over one source file, with the source and the tree's nodes as records.
pub struct SyntaxTree {
    tree: tree_sitter::Tree,
    source: String,
    language: Language,
    nodes: Vec<SyntaxNode>,
}

impl SyntaxTree {
    /// The well-formedness of the held nodes.
    #[verifier::type_invariant]
    spec fn held_nodes_wf(&self) -> bool {
        nodes_wf(self.nodes@)
    }

    /// The source text.
    pub closed spec fn source_view(&self) -> Seq<char> {
        self.source@
    }

    /// The language the source was parsed as.
    pub closed spec fn language_of(&self) -> Language {
        self.language
    }

    /// The tree's nodes, in visit order.
    pub closed spec fn nodes_view(&self) -> Seq<SyntaxNode> {
        self.nodes@
    }

    /// Parse `source` as `language`. Returns `None` only if the parser cannot be initialized, which
    /// the bundled grammars never cause, so a tree always comes back.
    pub fn parse(source: &str, language: Language) -> (r: Option<SyntaxTree>)
        ensures
            r is Some,
            r matches Some(t) ==> t.source_view() == source@ && t.language_of() == language,
    {
        let tree = match parse_source(source, language) {
            Some(t) => t,
            None => return None,
        };
        let nodes = records_of(&tree);
        Some(SyntaxTree { tree, source: source.to_owned(), language, nodes })
    }

    /// The position of the node tree-sitter finds spanning the byte range `[start, end)`.
    pub fn descendant_position(&self, start: usize, end: usize) -> (r: Option<usize>)
        ensures
            located_in(self.nodes_view(), position_of(r)),
            start <= u32::MAX && end <= u32::MAX && start > end ==> r is None,
    {
        resolve(&self.nodes, descendant_id(&self.tree, start, end))
    }

    /// The chain of persisted declarations enclosing the node at `at`, innermost first.
    pub fn enclosing_declarations_from(&self, at: Option<usize>) -> (r: Vec<SyntaxDeclaration>)
        ensures
            r@ == declarations_from(self.nodes_view(), self.language_of(), position_of(at)),
    {
        proof {
            use_type_invariant(self);
        }
        let mut out: Vec<SyntaxDeclaration> = Vec::new();
        let mut cur = match at {
            Some(k) => if k < self.nodes.len() {
                Some(k)
            } else {
                return out;
            },
            None => return out,
        };
        let ghost whole = declarations_from(self.nodes@, self.language, position_of(at));
        while cur.is_some()
            invariant
                nodes_wf(self.nodes@),
                cur matches Some(c) ==> c < self.nodes.len(),
                out@ + match cur {
                    Some(c) => declarations_above(self.nodes@, self.language, c as int),
                    None => Seq::empty(),
                } == whole,
            decreases match cur {
                Some(c) => c + 1,
                None => 0,
            },
        {
            let c = cur.unwrap();
            let here = declaration_of(&self.nodes, self.language, c);
            let ghost before = out@;
            match here {
                Some(d) => out.push(d),
                None => {},
            }
            assert(out@ == before + optional_seq(declaration_at(self.nodes@, self.language, c as int)));
            cur = parent_of(&self.nodes, c);
            assert(out@ + match cur {
                Some(p) => declarations_above(self.nodes@, self.language, p as int),
                None => Seq::empty(),
            } =~= before + declarations_above(self.nodes@, self.language, c as int));
        }
        assert(out@ =~= whole);
        out
    }

    /// The chain of persisted declarations enclosing `offset`, innermost first. A closure is not a
    /// declaration, so it never appears; an empty chain means the module itself encloses `offset`.
    pub fn enclosing_declarations(&self, offset: usize) -> (r: Vec<SyntaxDeclaration>)
        ensures
            exists|at: Option<int>|
                located_in(self.nodes_view(), at) && r@ == #[trigger] declarations_from(
                    self.nodes_view(),
                    self.language_of(),
                    at,
                ),
    {
        let at = self.descendant_position(offset, offset);
        let r = self.enclosing_declarations_from(at);
        assert(located_in(self.nodes_view(), position_of(at)));
        r
    }

    /// Every persisted declaration in the file, in visit order.
    pub fn all_declarations(&self) -> (r: Vec<SyntaxDeclaration>)
        ensures
            r@ == declarations_among(self.nodes_view(), self.language_of(), self.nodes_view().len() as int),
    {
        proof {
            use_type_invariant(self);
        }
        let mut out: Vec<SyntaxDeclaration> = Vec::new();
        let mut k: usize = 0;
        while k < self.nodes.len()
            invariant
                nodes_wf(self.nodes@),
                k <= self.nodes.len(),
                out@ == declarations_among(self.nodes@, self.language, k as int),
            decreases self.nodes.len() - k,
        {
            match declaration_of(&self.nodes, self.language, k) {
                Some(d) => out.push(d),
                None => {},
            }
            k = k + 1;
        }
        out
    }

    /// The text of the `type` or `trait` child of the nearest `impl_item` at or above `at`.
    fn impl_text_from_exec(&self, at: Option<usize>, trait_side: bool) -> (r: Option<String>)
        ensures
            owned_text(r) == impl_text_from(self.nodes_view(), self.source_view(), position_of(at), trait_side),
    {
        proof {
            use_type_invariant(self);
        }
        let mut cur = match at {
            Some(k) => if k < self.nodes.len() {
                k
            } else {
                return None;
            },
            None => return None,
        };
        let ghost whole = impl_text_from(self.nodes@, self.source@, position_of(at), trait_side);
        loop
            invariant
                nodes_wf(self.nodes@),
                cur < self.nodes.len(),
                impl_text_above(self.nodes@, self.source@, cur as int, trait_side) == whole,
                whole == impl_text_from(self.nodes@, self.source@, position_of(at), trait_side),
            decreases cur,
        {
            let node = &self.nodes[cur];
            let field = if trait_side {
                node.fields.trait_ref
            } else {
                node.fields.ty
            };
            if str_eq(node.kind.as_str(), "impl_item") {
                match resolve(&self.nodes, field) {
                    Some(j) => {
                        return match self.text_at(self.nodes[j].span) {
                            Some(t) => Some(t.to_owned()),
                            None => None,
                        };
                    },
                    None => {},
                }
            }
            match parent_of(&self.nodes, cur) {
                Some(p) => {
                    cur = p;
                },
                None => return None,
            }
        }
    }

    /// The self-type text of the nearest `impl` block enclosing the node at `at`.
    pub fn enclosing_impl_self_type_from(&self, at: Option<usize>) -> (r: Option<String>)
        ensures
            owned_text(r) == impl_text_from(self.nodes_view(), self.source_view(), position_of(at), false),
    {
        self.impl_text_from_exec(at, false)
    }

    /// The self-type text of the nearest `impl` block enclosing `offset`, verbatim; `None` inside a
    /// trait body or outside any `impl`.
    pub fn enclosing_impl_self_type(&self, offset: usize) -> (r: Option<String>)
        ensures
            exists|at: Option<int>|
                located_in(self.nodes_view(), at) && owned_text(r) == #[trigger] impl_text_from(
                    self.nodes_view(),
                    self.source_view(),
                    at,
                    false,
                ),
    {
        let at = self.descendant_position(offset, offset);
        self.enclosing_impl_self_type_from(at)
    }

    /// The trait-name text of the nearest `impl` block enclosing the node at `at`.
    pub fn enclosing_impl_trait_name_from(&self, at: Option<usize>) -> (r: Option<String>)
        ensures
            owned_text(r) == impl_text_from(self.nodes_view(), self.source_view(), position_of(at), true),
    {
        self.impl_text_from_exec(at, true)
    }

    /// The trait-name text of the nearest `impl` block enclosing `offset`, verbatim; `None` for an
    /// inherent `impl`, inside a trait body, or outside any `impl`.
    pub fn enclosing_impl_trait_name(&self, offset: usize) -> (r: Option<String>)
        ensures
            exists|at: Option<int>|
                located_in(self.nodes_view(), at) && owned_text(r) == #[trigger] impl_text_from(
                    self.nodes_view(),
                    self.source_view(),
                    at,
                    true,
                ),
    {
        let at = self.descendant_position(offset, offset);
        self.enclosing_impl_trait_name_from(at)
    }

    /// The spans of the `attribute`/`dotted_name` constructs enclosing the node at `at`, innermost
    /// first.
    pub fn enclosing_dotted_constructs_from(&self, at: Option<usize>) -> (r: Vec<ByteSpan>)
        ensures
            r@ == dotted_from(self.nodes_view(), position_of(at)),
    {
        proof {
            use_type_invariant(self);
        }
        let mut out: Vec<ByteSpan> = Vec::new();
        let mut cur = match at {
            Some(k) => if k < self.nodes.len() {
                Some(k)
            } else {
                return out;
            },
            None => return out,
        };
        let ghost whole = dotted_from(self.nodes@, position_of(at));
        while cur.is_some()
            invariant
                nodes_wf(self.nodes@),
                cur matches Some(c) ==> c < self.nodes.len(),
                out@ + match cur {
                    Some(c) => dotted_above(self.nodes@, c as int),
                    None => Seq::empty(),
                } == whole,
            decreases match cur {
                Some(c) => c + 1,
                None => 0,
            },
        {
            let c = cur.unwrap();
            let ghost before = out@;
            let kind = self.nodes[c].kind.as_str();
            if str_eq(kind, "attribute") || str_eq(kind, "dotted_name") {
                out.push(self.nodes[c].span);
            }
            cur = parent_of(&self.nodes, c);
            assert(out@ + match cur {
                Some(p) => dotted_above(self.nodes@, p as int),
                None => Seq::empty(),
            } =~= before + dotted_above(self.nodes@, c as int));
        }
        assert(out@ =~= whole);
        out
    }

    /// The chain of `attribute`/`dotted_name` spans enclosing `span`, innermost first (Python).
    pub fn enclosing_dotted_constructs(&self, span: ByteSpan) -> (r: Vec<ByteSpan>)
        requires
            span.start < usize::MAX,
        ensures
            exists|at: Option<int>| located_in(self.nodes_view(), at) && r@ == #[trigger] dotted_from(self.nodes_view(), at),
    {
        let at = self.locate_span(span);
        self.enclosing_dotted_constructs_from(at)
    }

    /// The position of the node tree-sitter finds at `span`, read as at least one byte wide and
    /// no further than the end of the root.
    fn locate_span(&self, span: ByteSpan) -> (r: Option<usize>)
        requires
            span.start < usize::MAX,
        ensures
            located_in(self.nodes_view(), position_of(r)),
            span.start <= u32::MAX && self.nodes_view()[0].span.end <= u32::MAX && span.start
                > self.nodes_view()[0].span.end ==> r is None,
    {
        proof {
            use_type_invariant(self);
        }
        let wide = if span.end > span.start + 1 {
            span.end
        } else {
            span.start + 1
        };
        let root_end = self.nodes[0].span.end;
        let end = if wide < root_end {
            wide
        } else {
            root_end
        };
        self.descendant_position(span.start, end)
    }

    /// The trait and type name-token spans of every `impl Trait for Type` block, in visit order.
    /// An inherent `impl`, and a header whose trait or type has no name token, contribute nothing.
    pub fn trait_impls(&self) -> (r: Vec<TraitImpl>)
        ensures
            r@ == trait_impls_among(self.nodes_view(), self.nodes_view().len() as int),
    {
        let mut out: Vec<TraitImpl> = Vec::new();
        let mut k: usize = 0;
        while k < self.nodes.len()
            invariant
                k <= self.nodes.len(),
                out@ == trait_impls_among(self.nodes@, k as int),
            decreases self.nodes.len() - k,
        {
            match trait_impl_of(&self.nodes, k) {
                Some(t) => out.push(t),
                None => {},
            }
            k = k + 1;
        }
        out
    }

    /// The class and base name-token spans of every Python class definition, in visit order. A
    /// class without bases has none; a base without a name token is skipped.
    pub fn class_bases(&self) -> (r: Vec<ClassBases>)
        ensures
            r@.map_values(|c: ClassBases| class_bases_view(c)) == class_bases_among(
                self.nodes_view(),
                self.nodes_view().len() as int,
            ),
    {
        let mut out: Vec<ClassBases> = Vec::new();
        let mut k: usize = 0;
        while k < self.nodes.len()
            invariant
                k <= self.nodes.len(),
                out@.map_values(|c: ClassBases| class_bases_view(c)) == class_bases_among(self.nodes@, k as int),
            decreases self.nodes.len() - k,
        {
            let ghost before = out@;
            match class_bases_of(&self.nodes, k) {
                Some(c) => out.push(c),
                None => {},
            }
            assert(out@.map_values(|c: ClassBases| class_bases_view(c)) =~= before.map_values(
                |c: ClassBases| class_bases_view(c),
            ) + optional_seq(class_bases_at(self.nodes@, k as int)));
            k = k + 1;
        }
        out
    }

    /// Every declared alias binding, in visit order: Python `aliased_import` nodes, and Rust
    /// `use_as_clause` nodes whose path has a terminal segment. A plain import declares none.
    pub fn alias_bindings(&self) -> (r: Vec<AliasBinding>)
        ensures
            r@ == aliases_among(self.nodes_view(), self.language_of(), self.nodes_view().len() as int),
    {
        let mut out: Vec<AliasBinding> = Vec::new();
        let mut k: usize = 0;
        while k < self.nodes.len()
            invariant
                k <= self.nodes.len(),
                out@ == aliases_among(self.nodes@, self.language, k as int),
            decreases self.nodes.len() - k,
        {
            match alias_of(&self.nodes, self.language, k) {
                Some(a) => out.push(a),
                None => {},
            }
            k = k + 1;
        }
        out
    }

    /// The text of the child an id names.
    fn child_text_of(&self, id: Option<usize>) -> (r: Option<String>)
        ensures
            owned_text(r) == child_text(self.nodes_view(), self.source_view(), id),
    {
        match resolve(&self.nodes, id) {
            Some(j) => match self.text_at(self.nodes[j].span) {
                Some(t) => Some(t.to_owned()),
                None => None,
            },
            None => None,
        }
    }

    /// The construct at the node at `at`: the nearest named node at or above it, with the operator
    /// token of a binary, compound-assignment or unary expression.
    pub fn construct_at_from(&self, at: Option<usize>) -> (r: Option<ConstructAt>)
        ensures
            match r {
                Some(c) => construct_from(self.nodes_view(), self.source_view(), position_of(at)) == Some(
                    construct_view(c),
                ),
                None => construct_from(self.nodes_view(), self.source_view(), position_of(at)) is None,
            },
    {
        proof {
            use_type_invariant(self);
        }
        let k = match at {
            Some(k) => if k < self.nodes.len() {
                k
            } else {
                return None;
            },
            None => return None,
        };
        let c = match climb_to_named(&self.nodes, k) {
            Some(c) => c,
            None => return None,
        };
        let node = &self.nodes[c];
        let kind = node.kind.as_str();
        let operator = if str_eq(kind, "binary_expression") || str_eq(kind, "compound_assignment_expr") {
            self.child_text_of(node.fields.operator)
        } else if str_eq(kind, "unary_expression") {
            self.child_text_of(node.first_child)
        } else {
            None
        };
        Some(ConstructAt { kind: node.kind.clone(), span: node.span, operator })
    }

    /// The syntactic construct at `span`: the smallest named node containing it, with the operator
    /// token of an operator-shaped expression.
    pub fn construct_at(&self, span: ByteSpan) -> (r: Option<ConstructAt>)
        requires
            span.start < usize::MAX,
        ensures
            exists|at: Option<int>|
                located_in(self.nodes_view(), at) && #[trigger] construct_from(self.nodes_view(), self.source_view(), at)
                    == match r {
                    Some(c) => Some(construct_view(c)),
                    None => None,
                },
    {
        let at = self.locate_span(span);
        let r = self.construct_at_from(at);
        assert(construct_from(self.nodes_view(), self.source_view(), position_of(at)) == match r {
            Some(c) => Some(construct_view(c)),
            None => None,
        });
        r
    }

    /// Whether the sibling an id names is a named node.
    fn named_sibling_of(&self, id: Option<usize>) -> (r: bool)
        ensures
            r == named_sibling(self.nodes_view(), id),
    {
        match resolve(&self.nodes, id) {
            Some(j) => self.nodes[j].named,
            None => false,
        }
    }

    /// The shape of the range whose operator token is the node at `at`.
    pub fn range_shape_from(&self, at: Option<usize>) -> (r: Option<RangeShape>)
        ensures
            r == range_shape_from(self.nodes_view(), position_of(at)),
    {
        proof {
            use_type_invariant(self);
        }
        let k = match at {
            Some(k) => if k < self.nodes.len() {
                k
            } else {
                return None;
            },
            None => return None,
        };
        let node = &self.nodes[k];
        let kind = node.kind.as_str();
        let inclusive = str_eq(kind, "..=");
        if node.named || !(str_eq(kind, "..") || inclusive) {
            return None;
        }
        let p = match parent_of(&self.nodes, k) {
            Some(p) => p,
            None => return None,
        };
        let parent = &self.nodes[p];
        if str_eq(parent.kind.as_str(), "range_pattern") {
            Some(
                RangeShape {
                    has_start: parent.fields.left.is_some(),
                    has_end: parent.fields.right.is_some(),
                    inclusive,
                },
            )
        } else if str_eq(parent.kind.as_str(), "range_expression") {
            Some(
                RangeShape {
                    has_start: self.named_sibling_of(node.prev_sibling),
                    has_end: self.named_sibling_of(node.next_sibling),
                    inclusive,
                },
            )
        } else {
            None
        }
    }

    /// The shape of the range construct whose operator token (`..` or `..=`) is at `span`, for a
    /// `range_expression` or a `range_pattern`; `None` anywhere else.
    pub fn range_shape(&self, span: ByteSpan) -> (r: Option<RangeShape>)
        requires
            span.start < usize::MAX,
        ensures
            exists|at: Option<int>| located_in(self.nodes_view(), at) && r == #[trigger] range_shape_from(self.nodes_view(), at),
    {
        let at = self.locate_span(span);
        self.range_shape_from(at)
    }

    /// Whether the named node at or above `at` is the `name` identifier of a `mod_item`.
    pub fn is_module_declaration_name_from(&self, at: Option<usize>) -> (r: bool)
        ensures
            r == module_name_from(self.nodes_view(), position_of(at)),
    {
        proof {
            use_type_invariant(self);
        }
        let k = match at {
            Some(k) => if k < self.nodes.len() {
                k
            } else {
                return false;
            },
            None => return false,
        };
        let c = match climb_to_named(&self.nodes, k) {
            Some(c) => c,
            None => return false,
        };
        if !str_eq(self.nodes[c].kind.as_str(), "identifier") {
            return false;
        }
        let p = match parent_of(&self.nodes, c) {
            Some(p) => p,
            None => return false,
        };
        if !str_eq(self.nodes[p].kind.as_str(), "mod_item") {
            return false;
        }
        match field_span_of(&self.nodes, self.nodes[p].fields.name) {
            Some(s) => s.same_as(&self.nodes[c].span),
            None => false,
        }
    }

    /// Whether `span` sits on the name token of a module declaration (`mod name;` or
    /// `mod name { .. }`). Python has no such declaration, so every Python span answers `false`.
    pub fn is_module_declaration_name(&self, span: ByteSpan) -> (r: bool)
        requires
            span.start < usize::MAX,
        ensures
            self.language_of() != Language::Rust ==> !r,
            self.language_of() == Language::Rust ==> exists|at: Option<int>|
                located_in(self.nodes_view(), at) && r == #[trigger] module_name_from(self.nodes_view(), at),
    {
        match self.language {
            Language::Python => false,
            Language::Rust => {
                let at = self.locate_span(span);
                self.is_module_declaration_name_from(at)
            },
        }
    }

    /// For a `self` token at `at` inside a `use_list`, the span of the terminal segment of the
    /// enclosing use path.
    pub fn use_list_self_context_from(&self, at: Option<usize>) -> (r: Option<ByteSpan>)
        ensures
            r == use_list_self_from(self.nodes_view(), position_of(at)),
    {
        proof {
            use_type_invariant(self);
        }
        let k = match at {
            Some(k) => if k < self.nodes.len() {
                k
            } else {
                return None;
            },
            None => return None,
        };
        let c = match climb_to_named(&self.nodes, k) {
            Some(c) => c,
            None => return None,
        };
        if !str_eq(self.nodes[c].kind.as_str(), "self") {
            return None;
        }
        let h = match parent_of(&self.nodes, c) {
            Some(h) => h,
            None => return None,
        };
        let h = if str_eq(self.nodes[h].kind.as_str(), "use_as_clause") {
            match parent_of(&self.nodes, h) {
                Some(g) => g,
                None => return None,
            }
        } else {
            h
        };
        if !str_eq(self.nodes[h].kind.as_str(), "use_list") {
            return None;
        }
        let sl = match parent_of(&self.nodes, h) {
            Some(sl) => sl,
            None => return None,
        };
        if !str_eq(self.nodes[sl].kind.as_str(), "scoped_use_list") {
            return None;
        }
        let path = match resolve(&self.nodes, self.nodes[sl].fields.path) {
            Some(path) => path,
            None => return None,
        };
        match use_path_terminal_of(&self.nodes, path) {
            Some(t) => Some(self.nodes[t].span),
            None => None,
        }
    }

    /// For a span on a `self` token inside a `use_list` (`use a::walk::{self, x};`, or aliased as
    /// `{self as w}`), the span of the terminal segment of the enclosing use path; `None` for any
    /// other `self` and any other span.
    pub fn use_list_self_context(&self, span: ByteSpan) -> (r: Option<ByteSpan>)
        requires
            span.start < usize::MAX,
        ensures
            exists|at: Option<int>| located_in(self.nodes_view(), at) && r == #[trigger] use_list_self_from(self.nodes_view(), at),
    {
        let at = self.locate_span(span);
        self.use_list_self_context_from(at)
    }

    /// Whether the named node at or above `at` is a path-start `self` token.
    pub fn path_start_self_from(&self, at: Option<usize>) -> (r: bool)
        ensures
            r == path_start_self_from(self.nodes_view(), position_of(at)),
    {
        proof {
            use_type_invariant(self);
        }
        let k = match at {
            Some(k) => if k < self.nodes.len() {
                k
            } else {
                return false;
            },
            None => return false,
        };
        let c = match climb_to_named(&self.nodes, k) {
            Some(c) => c,
            None => return false,
        };
        if !str_eq(self.nodes[c].kind.as_str(), "self") {
            return false;
        }
        match parent_of(&self.nodes, c) {
            Some(p) => {
                let kind = self.nodes[p].kind.as_str();
                (str_eq(kind, "scoped_identifier") || str_eq(kind, "scoped_use_list")) && match self.nodes[p].fields.path {
                    Some(id) => id == self.nodes[c].id,
                    None => false,
                }
            },
            None => false,
        }
    }

    /// Whether `span` sits on a path-start `self` token, the leading segment of a `self::` path.
    pub fn path_start_self(&self, span: ByteSpan) -> (r: bool)
        requires
            span.start < usize::MAX,
        ensures
            exists|at: Option<int>| located_in(self.nodes_view(), at) && r == #[trigger] path_start_self_from(self.nodes_view(), at),
    {
        let at = self.locate_span(span);
        self.path_start_self_from(at)
    }

    /// The depth of a `super` token at `at`.
    pub fn super_chain_depth_from(&self, at: Option<usize>) -> (r: Option<usize>)
        ensures
            match r {
                Some(d) => super_depth_from(self.nodes_view(), position_of(at)) == Some(d as nat),
                None => super_depth_from(self.nodes_view(), position_of(at)) is None,
            },
    {
        proof {
            use_type_invariant(self);
        }
        let k = match at {
            Some(k) => if k < self.nodes.len() {
                k
            } else {
                return None;
            },
            None => return None,
        };
        let c = match climb_to_named(&self.nodes, k) {
            Some(c) => c,
            None => return None,
        };
        if !str_eq(self.nodes[c].kind.as_str(), "super") {
            return None;
        }
        let p = match parent_of(&self.nodes, c) {
            Some(p) => p,
            None => return Some(1),
        };
        let is_name = match self.nodes[p].fields.name {
            Some(id) => id == self.nodes[c].id,
            None => false,
        };
        if str_eq(self.nodes[p].kind.as_str(), "scoped_identifier") && is_name {
            let preceding = match child_after_exec(&self.nodes, self.nodes[p].fields.path, p) {
                Some(j) => {
                    proof {
                        lemma_super_count_bound(self.nodes@, j as int);
                    }
                    super_count_of(&self.nodes, j)
                },
                None => 0,
            };
            Some(preceding + 1)
        } else {
            Some(1)
        }
    }

    /// One more than the number of `super` segments before the `super` token at `span` in its path
    /// (`super::super::y`: the second has depth 2); `None` for a span not on a `super` token.
    pub fn super_chain_depth(&self, span: ByteSpan) -> (r: Option<usize>)
        requires
            span.start < usize::MAX,
        ensures
            exists|at: Option<int>|
                located_in(self.nodes_view(), at) && #[trigger] super_depth_from(self.nodes_view(), at) == match r {
                    Some(d) => Some(d as nat),
                    None => None,
                },
    {
        let at = self.locate_span(span);
        let r = self.super_chain_depth_from(at);
        assert(super_depth_from(self.nodes_view(), position_of(at)) == match r {
            Some(d) => Some(d as nat),
            None => None::<nat>,
        });
        r
    }

    /// Whether tree-sitter finds any node at `span` at all, identifier or otherwise. The span is
    /// read as at least one byte wide and no further than the end of the root (the first node held),
    /// so a node is found exactly when the span starts no later than the root ends.
    pub fn has_construct_at(&self, span: ByteSpan) -> (r: bool)
        requires
            span.start < usize::MAX,
        ensures
            span.start <= u32::MAX && self.nodes_view()[0].span.end <= u32::MAX ==> (r <==> span.start
                <= self.nodes_view()[0].span.end),
    {
        proof {
            use_type_invariant(self);
        }
        let wide = if span.end > span.start + 1 {
            span.end
        } else {
            span.start + 1
        };
        let root_end = self.nodes[0].span.end;
        let end = if wide < root_end {
            wide
        } else {
            root_end
        };
        descendant_id(&self.tree, span.start, end).is_some()
    }

    /// The smallest identifier (name) node whose span contains `span`, descending only into nodes
    /// that contain it; of equally small ones, the first visited.
    pub fn name_node_containing(&self, span: ByteSpan) -> (r: Option<ByteSpan>)
        ensures
            smallest_name_node(self.nodes_view(), self.language_of(), span, r),
    {
        proof {
            use_type_invariant(self);
        }
        let nodes = &self.nodes;
        let ghost lang = self.language;
        let mut flags: Vec<bool> = Vec::new();
        let mut best: Option<usize> = None;
        let mut k: usize = 0;
        while k < nodes.len()
            invariant
                nodes_wf(nodes@),
                lang == self.language,
                nodes@ == self.nodes@,
                k <= nodes.len(),
                flags.len() == k,
                forall|j: int| 0 <= j < k ==> (#[trigger] flags@[j]) == reached(nodes@, span, j),
                best is None <==> forall|j: int| 0 <= j < k ==> !#[trigger] name_candidate(nodes@, lang, span, j),
                best matches Some(b) ==> b < k && name_candidate(nodes@, lang, span, b as int) && (forall|j: int|
                    0 <= j < k && #[trigger] name_candidate(nodes@, lang, span, j) ==> node_width(nodes@, b as int)
                        <= node_width(nodes@, j)) && (forall|j: int|
                    0 <= j < b && #[trigger] name_candidate(nodes@, lang, span, j) ==> node_width(nodes@, b as int)
                        < node_width(nodes@, j)),
            decreases nodes.len() - k,
        {
            let here = match parent_of(nodes, k) {
                Some(p) => flags[p] && nodes[p].span.contains(&span),
                None => true,
            };
            flags.push(here);
            if here && nodes[k].span.contains(&span) && is_name_node_at(nodes, self.language, k) {
                let w = nodes[k].span.end - nodes[k].span.start;
                best = match best {
                    Some(b) => if nodes[b].span.end - nodes[b].span.start <= w {
                        Some(b)
                    } else {
                        Some(k)
                    },
                    None => Some(k),
                };
            }
            assert(name_candidate(nodes@, lang, span, k as int) <==> (here && spans_contain(nodes@[k as int].span, span)
                && is_name_node(nodes@, lang, k as int)));
            k = k + 1;
        }
        match best {
            Some(b) => {
                assert(name_candidate(self.nodes_view(), self.language_of(), span, b as int));
                Some(nodes[b].span)
            },
            None => {
                assert forall|j: int| !#[trigger] name_candidate(self.nodes_view(), self.language_of(), span, j) by {
                    if 0 <= j < nodes.len() {
                        assert(!name_candidate(nodes@, lang, span, j));
                    }
                }
                None
            },
        }
    }

    /// The text at a span, owned.
    fn owned_text_at(&self, span: ByteSpan) -> (r: Option<String>)
        ensures
            ostr(r) == text_in(self.source_view(), span.start as nat, span.end as nat),
    {
        match self.text_at(span) {
            Some(t) => Some(t.to_owned()),
            None => None,
        }
    }

    /// The inline `mod` names among declarations listed innermost first, outermost first.
    fn module_chain(&self, decls: &Vec<SyntaxDeclaration>) -> (r: Vec<String>)
        ensures
            r@.map_values(|m: String| m@) == module_names(self.source_view(), decls@),
    {
        let mut out: Vec<String> = Vec::new();
        let mut i: usize = decls.len();
        while i > 0
            invariant
                i <= decls.len(),
                out@.map_values(|m: String| m@) == module_names(self.source_view(), decls@.subrange(i as int, decls.len() as int)),
            decreases i,
        {
            i = i - 1;
            let ghost before = out@;
            let d = &decls[i];
            if str_eq(d.node_kind.as_str(), "mod_item") {
                match self.owned_text_at(d.name_span) {
                    Some(t) => out.push(t),
                    None => {},
                }
            }
            assert(decls@.subrange(i as int, decls.len() as int).drop_first() =~= decls@.subrange(
                i + 1,
                decls.len() as int,
            ));
            assert(out@.map_values(|m: String| m@) =~= before.map_values(|m: String| m@) + (if d.node_kind@
                == "mod_item"@ && text_in(self.source_view(), d.name_span.start as nat, d.name_span.end as nat) is Some {
                seq![text_in(self.source_view(), d.name_span.start as nat, d.name_span.end as nat)->0]
            } else {
                Seq::empty()
            }));
        }
        assert(decls@.subrange(0, decls.len() as int) =~= decls@);
        out
    }

    /// Spans, each with its text.
    fn with_texts(&self, spans: &Vec<ByteSpan>) -> (r: Vec<(ByteSpan, Option<String>)>)
        ensures
            dotted_view(r@) == spans_with_text(self.source_view(), spans@),
    {
        let mut out: Vec<(ByteSpan, Option<String>)> = Vec::new();
        let mut i: usize = 0;
        while i < spans.len()
            invariant
                i <= spans.len(),
                dotted_view(out@) =~= spans_with_text(self.source_view(), spans@.take(i as int)),
            decreases spans.len() - i,
        {
            let ghost before = out@;
            let text = self.owned_text_at(spans[i]);
            out.push((spans[i], text));
            assert(spans@.take(i + 1) =~= spans@.take(i as int).push(spans@[i as int]));
            assert(dotted_view(out@) =~= dotted_view(before).push((spans@[i as int], ostr(text))));
            assert(spans_with_text(self.source_view(), spans@.take(i + 1)) =~= spans_with_text(
                self.source_view(),
                spans@.take(i as int),
            ).push((spans@[i as int], text_in(self.source_view(), spans@[i as int].start as nat, spans@[i as int].end as nat))));
            i = i + 1;
        }
        assert(spans@.take(spans.len() as int) =~= spans@);
        out
    }

    /// What the tree shows at an occurrence span, as the alignment rules read it: the name node
    /// containing the span and its text, the span's own text, the construct and range shape there,
    /// the enclosing `impl` types and inline modules at its start, the `self`/`super` path facts,
    /// the enclosing dotted constructs, and the source's length.
    pub fn site_facts(&self, span: ByteSpan) -> (r: SiteFacts)
        requires
            span.start < usize::MAX,
        ensures
            smallest_name_node(self.nodes_view(), self.language_of(), span, r.name_span),
            ostr(r.name_text) == match r.name_span {
                Some(ns) => text_in(self.source_view(), ns.start as nat, ns.end as nat),
                None => None,
            },
            ostr(r.span_text) == text_in(self.source_view(), span.start as nat, span.end as nat),
            r.source_len == encode_utf8(self.source_view()).len(),
            exists|p: Option<int>, q: Option<int>|
                located_in(self.nodes_view(), p) && located_in(self.nodes_view(), q) && #[trigger] site_facts_at(
                    self.nodes_view(),
                    self.source_view(),
                    self.language_of(),
                    p,
                    q,
                    r,
                ),
    {
        let name_span = self.name_node_containing(span);
        let name_text = match name_span {
            Some(ns) => self.owned_text_at(ns),
            None => None,
        };
        let p = self.descendant_position(span.start, span.start);
        let q = self.locate_span(span);
        let construct = self.construct_at_from(q);
        let use_list_terminal = match self.use_list_self_context_from(q) {
            Some(t) => self.owned_text_at(t),
            None => None,
        };
        let decls = self.enclosing_declarations_from(p);
        let dotted = self.enclosing_dotted_constructs_from(q);
        let bytes = self.source.as_str().as_bytes();
        let r = SiteFacts {
            name_span,
            name_text,
            span_text: self.owned_text_at(span),
            construct,
            has_construct: q.is_some(),
            source_len: bytes.len(),
            impl_self_type: self.enclosing_impl_self_type_from(p),
            impl_trait_name: self.enclosing_impl_trait_name_from(p),
            range_shape: self.range_shape_from(q),
            use_list_terminal,
            path_start_self: self.path_start_self_from(q),
            super_depth: self.super_chain_depth_from(q),
            inline_modules: self.module_chain(&decls),
            dotted_constructs: self.with_texts(&dotted),
        };
        assert(site_facts_at(
            self.nodes_view(),
            self.source_view(),
            self.language_of(),
            position_of(p),
            position_of(q),
            r,
        ));
        r
    }

    /// The language the source was parsed as.
    pub fn language(&self) -> (r: Language)
        ensures
            r == self.language_of(),
    {
        self.language
    }

    /// The source text this tree was parsed from.
    pub fn source(&self) -> (r: &str)
        ensures
            r@ == self.source_view(),
    {
        self.source.as_str()
    }

    /// The text at a span, or `None` if the span is reversed or does not fall on character
    /// boundaries of the source.
    pub fn text_at(&self, span: ByteSpan) -> (r: Option<&str>)
        ensures
            match r {
                Some(t) => text_in(self.source_view(), span.start as nat, span.end as nat) == Some(t@),
                None => text_in(self.source_view(), span.start as nat, span.end as nat) is None,
            },
    {
        let cs = chars_of(self.source.as_str());
        proof {
            lemma_boundary_in_range(cs@, span.start as nat, 0);
            lemma_boundary_in_range(cs@, span.end as nat, 0);
        }
        match (char_position(&cs, span.start), char_position(&cs, span.end)) {
            (Some(i), Some(j)) => {
                if i <= j {
                    Some(self.source.as_str().substring_char(i, j))
                } else {
                    None
                }
            },
            _ => None,
        }
    }
}

} // verus!
