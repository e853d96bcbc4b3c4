//! The abstract syntax tree produced by the parser and consumed by the
//! renderer, together with its mathematical model.
//!
//! The tree is immutable once built: an element node carries its tag, a void
//! flag, an ordered, append-only sequence of attributes, and an ordered
//! sequence of children; a content node carries a single value. Attributes
//! are kept as a sequence, not a set: a repeated name stays repeated, in
//! source order.

use vstd::prelude::*;

verus! {

/// The unit of dynamic content: a quoted string taken verbatim from source,
/// or a named reference resolved against a render-time context.
#[derive(Debug, PartialEq, Eq, Clone)]
pub enum Value {
    Literal(String),
    Binding(String),
}

/// A named attribute of an element. The shorthand spellings `.` and `#`
/// normalize to the names `class` and `id` at parse time.
#[derive(Debug, PartialEq, Eq, Clone)]
pub struct Attribute {
    pub name: String,
    pub value: Value,
}

/// A node of the tree: an element with attributes and children, or a
/// content leaf.
#[derive(Debug, PartialEq, Eq)]
pub enum Node {
    Element { tag: String, void: bool, attributes: Vec<Attribute>, children: Vec<Node> },
    Content(Value),
}

/// Mathematical model of a `Value`.
pub enum ValueModel {
    Literal(Seq<char>),
    Binding(Seq<char>),
}

/// Mathematical model of an `Attribute`.
pub struct AttributeModel {
    pub name: Seq<char>,
    pub value: ValueModel,
}

/// Mathematical model of a `Node`.
pub enum NodeModel {
    Element { tag: Seq<char>, void: bool, attributes: Seq<AttributeModel>, children: Seq<NodeModel> },
    Content(ValueModel),
}

impl View for Value {
    type V = ValueModel;

    open spec fn view(&self) -> ValueModel {
        match self {
            Value::Literal(s) => ValueModel::Literal(s@),
            Value::Binding(n) => ValueModel::Binding(n@),
        }
    }
}

impl View for Attribute {
    type V = AttributeModel;

    open spec fn view(&self) -> AttributeModel {
        AttributeModel { name: self.name@, value: self.value@ }
    }
}

/// The model of a sequence of attributes, element by element.
pub open spec fn attrs_view(attrs: Seq<Attribute>) -> Seq<AttributeModel> {
    Seq::new(attrs.len(), |i: int| attrs[i]@)
}

/// The model of a node, leaves first.
pub open spec fn node_view(n: Node) -> NodeModel
    decreases n,
{
    match n {
        Node::Content(v) => NodeModel::Content(v@),
        Node::Element { tag, void, attributes, children } => (NodeModel::Element {
            tag: tag@,
            void: void,
            attributes: attrs_view(attributes@),
            children: nodes_view(children@),
        }),
    }
}

/// The model of a sequence of nodes, element by element.
pub open spec fn nodes_view(ns: Seq<Node>) -> Seq<NodeModel>
    decreases ns,
{
    if ns.len() == 0 {
        Seq::empty()
    } else {
        seq![node_view(ns[0])] + nodes_view(ns.subrange(1, ns.len() as int))
    }
}

impl View for Node {
    type V = NodeModel;

    open spec fn view(&self) -> NodeModel {
        node_view(*self)
    }
}

/// `nodes_view` is the element-wise model.
pub proof fn lemma_nodes_view(ns: Seq<Node>)
    ensures
        nodes_view(ns).len() == ns.len(),
        forall|i: int| 0 <= i < ns.len() ==> nodes_view(ns)[i] == node_view(ns[i]),
    decreases ns.len(),
{
    if ns.len() > 0 {
        lemma_nodes_view(ns.subrange(1, ns.len() as int));
    }
}


/// A tree whose every element bears a non-empty tag.
pub open spec fn node_tags_nonempty(n: NodeModel) -> bool
    decreases n,
{
    match n {
        NodeModel::Content(_) => true,
        NodeModel::Element { tag, void: _, attributes: _, children } => tag.len() >= 1
            && nodes_tags_nonempty(children),
    }
}

/// A sequence of trees whose every element bears a non-empty tag.
pub open spec fn nodes_tags_nonempty(ns: Seq<NodeModel>) -> bool
    decreases ns,
{
    ns.len() == 0 || (node_tags_nonempty(ns[0]) && nodes_tags_nonempty(
        ns.subrange(1, ns.len() as int),
    ))
}

/// Non-empty tags are kept when a tree is put in front of a sequence.
pub proof fn lemma_nodes_tags_cons(n: NodeModel, rest: Seq<NodeModel>)
    requires
        node_tags_nonempty(n),
        nodes_tags_nonempty(rest),
    ensures
        nodes_tags_nonempty(seq![n] + rest),
{
    let whole = seq![n] + rest;
    assert(whole[0] == n);
    assert(whole.subrange(1, whole.len() as int) =~= rest);
}

} // verus!
