//! The template tree: the immutable description of what a render pass
//! produced, and its mathematical view.
//!
//! Tags, attribute names and values, text content, keys, event names and
//! listener handles are interned symbols (`u64`): the authoring layer that
//! builds trees owns the mapping from source text to symbols, and the engine
//! only ever compares them for equality.
//!
//! A node carries an `id` field: the backend handle the differ assigned when
//! the node was created in the backend. A freshly authored template has every
//! `id` equal to `UNASSIGNED`; the differ returns a mounted copy with real
//! handles filled in.

use vstd::prelude::*;

verus! {

/// The id a template node carries before the differ has mounted it.
pub const UNASSIGNED: u64 = 0;

/// One attribute of an element: a name symbol and a value symbol.
/// Presence is significant: an absent attribute is not an attribute
/// with an empty value.
#[derive(Clone, Copy, PartialEq, Eq, Structural, Debug)]
pub struct Attribute {
    pub name: u64,
    pub value: u64,
}

/// One listener of an element: an event name symbol and the handle of the
/// handler the authoring layer registered.
#[derive(Clone, Copy, PartialEq, Eq, Structural, Debug)]
pub struct Listener {
    pub event: u64,
    pub handler: u64,
}

/// A virtual tree node, as a render pass produces it.
pub enum Node {
    /// An element with a tag, attributes, listeners and children.
    Element {
        id: u64,
        tag: u64,
        key: Option<u64>,
        attrs: Vec<Attribute>,
        listeners: Vec<Listener>,
        children: Vec<Node>,
    },
    /// A text node.
    Text { id: u64, text: u64 },
    /// A bound hole for conditional or empty content. Carries no
    /// persistent identity across kind changes.
    Placeholder { id: u64 },
    /// Several siblings without an element of their own. `anchor` is a
    /// backend placeholder the differ keeps after the last child, so the
    /// fragment holds its position even when it empties.
    Fragment { anchor: u64, children: Vec<Node> },
    /// A component invocation: a component reference symbol, its props
    /// (a symbol for the props value the parent supplies), and an optional
    /// stable key. `scope` is the live scope the differ bound it to, or
    /// `UNASSIGNED` in a fresh template; `anchor` is the backend placeholder
    /// that marks the component's position.
    Component {
        scope: u64,
        anchor: u64,
        comp: u64,
        props: u64,
        key: Option<u64>,
    },
}

/// The mathematical view of a `Node`.
pub enum VNode {
    Element {
        id: u64,
        tag: u64,
        key: Option<u64>,
        attrs: Seq<Attribute>,
        listeners: Seq<Listener>,
        children: Seq<VNode>,
    },
    Text { id: u64, text: u64 },
    Placeholder { id: u64 },
    Fragment { anchor: u64, children: Seq<VNode> },
    Component { scope: u64, anchor: u64, comp: u64, props: u64, key: Option<u64> },
}

pub open spec fn view_nodes(s: Seq<Node>) -> Seq<VNode>
    decreases s,
{
    if s.len() == 0 {
        Seq::empty()
    } else {
        view_nodes(s.drop_last()).push(view_node(s.last()))
    }
}

pub open spec fn view_node(n: Node) -> VNode
    decreases n,
{
    match n {
        Node::Element { id, tag, key, attrs, listeners, children } => VNode::Element {
            id,
            tag,
            key,
            attrs: attrs@,
            listeners: listeners@,
            children: view_nodes(children@),
        },
        Node::Text { id, text } => VNode::Text { id, text },
        Node::Placeholder { id } => VNode::Placeholder { id },
        Node::Fragment { anchor, children } => VNode::Fragment {
            anchor,
            children: view_nodes(children@),
        },
        Node::Component { scope, anchor, comp, props, key } => VNode::Component {
            scope,
            anchor,
            comp,
            props,
            key,
        },
    }
}

impl View for Node {
    type V = VNode;

    open spec fn view(&self) -> VNode {
        view_node(*self)
    }
}

pub broadcast proof fn lemma_view_nodes_index(s: Seq<Node>)
    ensures
        #[trigger] view_nodes(s).len() == s.len(),
        forall|i: int| 0 <= i < s.len() ==> view_nodes(s)[i] == view_node(s[i]),
    decreases s,
{
    if s.len() > 0 {
        lemma_view_nodes_index(s.drop_last());
        assert forall|i: int| 0 <= i < s.len() implies view_nodes(s)[i] == view_node(s[i]) by {
            if i < s.len() - 1 {
                assert(s.drop_last()[i] == s[i]);
            }
        }
    }
}

/// The reconciliation key of a node's view: elements and components may
/// carry one; text, placeholders and fragments never do.
pub open spec fn vkey(v: VNode) -> Option<u64> {
    match v {
        VNode::Element { key, .. } => key,
        VNode::Component { key, .. } => key,
        _ => None,
    }
}

impl Node {
    /// The reconciliation key of this node, if it carries one.
    pub fn key(&self) -> (k: Option<u64>)
        ensures
            k == vkey(view_node(*self)),
    {
        match self {
            Node::Element { key, .. } => *key,
            Node::Component { key, .. } => *key,
            _ => None,
        }
    }
}

pub proof fn lemma_same_tpl_seq_intro(a: Seq<VNode>, b: Seq<VNode>)
    requires
        a.len() == b.len(),
        forall|i: int| 0 <= i < a.len() ==> same_tpl(a[i], b[i]),
    ensures
        same_tpl_seq(a, b),
    decreases a,
{
    if a.len() > 0 {
        assert(forall|i: int|
            0 <= i < a.len() - 1 ==> a.drop_last()[i] == a[i] && b.drop_last()[i] == b[i]);
        lemma_same_tpl_seq_intro(a.drop_last(), b.drop_last());
    }
}

/// Do two views describe the same template, ignoring the bookkeeping the
/// differ fills in (backend ids, scope bindings, anchors)?
pub open spec fn same_tpl(a: VNode, b: VNode) -> bool
    decreases a,
{
    match (a, b) {
        (
            VNode::Element { tag: ta, key: ka, attrs: aa, listeners: la, children: ca, .. },
            VNode::Element { tag: tb, key: kb, attrs: ab, listeners: lb, children: cb, .. },
        ) => ta == tb && ka == kb && aa == ab && la == lb && same_tpl_seq(ca, cb),
        (VNode::Text { text: xa, .. }, VNode::Text { text: xb, .. }) => xa == xb,
        (VNode::Placeholder { .. }, VNode::Placeholder { .. }) => true,
        (VNode::Fragment { children: ca, .. }, VNode::Fragment { children: cb, .. }) => same_tpl_seq(
            ca,
            cb,
        ),
        (
            VNode::Component { comp: fa, props: pa, key: ka, .. },
            VNode::Component { comp: fb, props: pb, key: kb, .. },
        ) => fa == fb && pa == pb && ka == kb,
        _ => false,
    }
}

pub open spec fn same_tpl_seq(a: Seq<VNode>, b: Seq<VNode>) -> bool
    decreases a,
{
    if a.len() != b.len() {
        false
    } else if a.len() == 0 {
        true
    } else {
        same_tpl(a.last(), b.last()) && same_tpl_seq(a.drop_last(), b.drop_last())
    }
}

pub broadcast proof fn lemma_same_tpl_seq_index(a: Seq<VNode>, b: Seq<VNode>)
    requires
        #[trigger] same_tpl_seq(a, b),
    ensures
        a.len() == b.len(),
        forall|i: int| 0 <= i < a.len() ==> same_tpl(a[i], b[i]),
    decreases a,
{
    if a.len() > 0 {
        lemma_same_tpl_seq_index(a.drop_last(), b.drop_last());
        assert forall|i: int| 0 <= i < a.len() implies same_tpl(a[i], b[i]) by {
            if i < a.len() - 1 {
                assert(a.drop_last()[i] == a[i]);
                assert(b.drop_last()[i] == b[i]);
            }
        }
    }
}

} // verus!
