//! The renderer: tree and context in, HTML text out.
//!
//! Rendering is a pure function of the tree and the context. Attributes are
//! serialized in stored order with no merging and no escaping; a void
//! element renders with no body and no closing tag; a childless container
//! self-closes; otherwise the children's renderings concatenate in order
//! between matching tags. The first unresolved binding aborts the whole
//! render.

use vstd::prelude::*;
use vstd::string::StringExecFns;
use crate::ast::{attrs_view, nodes_view, node_view, Attribute, AttributeModel, Node, NodeModel, Value, ValueModel};

verus! {

/// The render-time mapping from binding names to string values, supplied by
/// the caller. Lookups are by exact, case-sensitive name; a name bound
/// twice means what it was bound to last.
pub struct Context {
    entries: Vec<(String, String)>,
}

/// The model of a sequence of context entries, element by element.
pub open spec fn entries_view(entries: Seq<(String, String)>) -> Seq<(Seq<char>, Seq<char>)> {
    Seq::new(entries.len(), |i: int| (entries[i].0@, entries[i].1@))
}

/// The mapping spelled by a sequence of entries, later entries overriding
/// earlier ones.
pub open spec fn map_of(entries: Seq<(Seq<char>, Seq<char>)>) -> Map<Seq<char>, Seq<char>>
    decreases entries.len(),
{
    if entries.len() == 0 {
        Map::empty()
    } else {
        map_of(entries.drop_last()).insert(entries.last().0, entries.last().1)
    }
}

impl View for Context {
    type V = Map<Seq<char>, Seq<char>>;

    closed spec fn view(&self) -> Map<Seq<char>, Seq<char>> {
        map_of(entries_view(self.entries@))
    }
}

/// In the mapping of a sequence of entries, a name whose last occurrence
/// stands at `i` means the value bound there.
proof fn lemma_map_of_found(entries: Seq<(Seq<char>, Seq<char>)>, i: int)
    requires
        0 <= i < entries.len(),
        forall|k: int| i < k < entries.len() ==> (#[trigger] entries[k]).0 != entries[i].0,
    ensures
        map_of(entries).contains_key(entries[i].0),
        map_of(entries)[entries[i].0] == entries[i].1,
    decreases entries.len(),
{
    if i < entries.len() - 1 {
        assert(entries.drop_last()[i] == entries[i]);
        lemma_map_of_found(entries.drop_last(), i);
    }
}

/// A name no entry bears is not in the mapping.
proof fn lemma_map_of_absent(entries: Seq<(Seq<char>, Seq<char>)>, name: Seq<char>)
    requires
        forall|k: int| 0 <= k < entries.len() ==> (#[trigger] entries[k]).0 != name,
    ensures
        !map_of(entries).contains_key(name),
    decreases entries.len(),
{
    if entries.len() > 0 {
        lemma_map_of_absent(entries.drop_last(), name);
    }
}

impl Context {
    /// The empty context: no name is bound.
    pub fn new() -> (r: Context)
        ensures
            r@ == Map::<Seq<char>, Seq<char>>::empty(),
    {
        Context { entries: Vec::new() }
    }

    /// Bind `name` to `value`, overriding any earlier binding of the name.
    pub fn insert(&mut self, name: &str, value: &str)
        ensures
            final(self)@ == old(self)@.insert(name@, value@),
    {
        let ghost before = entries_view(self.entries@);
        self.entries.push((name.to_owned(), value.to_owned()));
        proof {
            let after = entries_view(self.entries@);
            assert(after.drop_last() =~= before);
            assert(after.last() == (name@, value@));
        }
    }

    /// Look a name up: the value it was last bound to, or nothing.
    pub fn get<'a>(&'a self, name: &str) -> (r: Option<&'a String>)
        ensures
            match r {
                Some(value) => self@.contains_key(name@) && value@ == self@[name@],
                None => !self@.contains_key(name@),
            },
    {
        let ghost ev = entries_view(self.entries@);
        let key = name.to_owned();
        let mut i = self.entries.len();
        while i > 0
            invariant
                i <= self.entries.len(),
                ev == entries_view(self.entries@),
                key@ == name@,
                forall|k: int| i <= k < ev.len() ==> (#[trigger] ev[k]).0 != name@,
            decreases i,
        {
            i = i - 1;
            if self.entries[i].0 == key {
                proof {
                    lemma_map_of_found(ev, i as int);
                }
                return Some(&self.entries[i].1);
            }
        }
        proof {
            lemma_map_of_absent(ev, name@);
        }
        None
    }
}

/// A binding with no matching entry in the supplied context; `name` is the
/// name that was not bound.
#[derive(Debug, PartialEq, Eq, Clone)]
pub struct UnboundNameError {
    pub name: String,
}

impl View for UnboundNameError {
    type V = Seq<char>;

    open spec fn view(&self) -> Seq<char> {
        self.name@
    }
}

/// What a value resolves to at render time: a literal is its own text, a
/// binding means what the context binds its name to, and an unbound name
/// is the error it raises.
pub open spec fn spec_resolve(v: ValueModel, context: Map<Seq<char>, Seq<char>>) -> Result<
    Seq<char>,
    Seq<char>,
> {
    match v {
        ValueModel::Literal(text) => Ok(text),
        ValueModel::Binding(name) => if context.contains_key(name) {
            Ok(context[name])
        } else {
            Err(name)
        },
    }
}

/// One attribute's serialization: ` name="value"`.
pub open spec fn spec_render_attr(a: AttributeModel, context: Map<Seq<char>, Seq<char>>) -> Result<
    Seq<char>,
    Seq<char>,
> {
    match spec_resolve(a.value, context) {
        Ok(value) => Ok(" "@ + a.name + "=\""@ + value + "\""@),
        Err(name) => Err(name),
    }
}

/// The attributes' serializations, concatenated in stored order: no
/// merging, no reordering, no deduplication.
pub open spec fn spec_render_attrs(
    attrs: Seq<AttributeModel>,
    context: Map<Seq<char>, Seq<char>>,
) -> Result<Seq<char>, Seq<char>>
    decreases attrs.len(),
{
    if attrs.len() == 0 {
        Ok(Seq::empty())
    } else {
        match spec_render_attr(attrs[0], context) {
            Ok(first) => match spec_render_attrs(attrs.subrange(1, attrs.len() as int), context) {
                Ok(rest) => Ok(first + rest),
                Err(name) => Err(name),
            },
            Err(name) => Err(name),
        }
    }
}

/// A node's rendering. A void element takes no body and no closing tag,
/// its children never rendered; a childless container self-closes; a
/// container with children wraps their concatenation in matching tags.
pub open spec fn spec_render_node(n: NodeModel, context: Map<Seq<char>, Seq<char>>) -> Result<
    Seq<char>,
    Seq<char>,
>
    decreases n,
{
    match n {
        NodeModel::Content(v) => spec_resolve(v, context),
        NodeModel::Element { tag, void, attributes, children } => match spec_render_attrs(
            attributes,
            context,
        ) {
            Ok(attrs_text) => if void {
                Ok("<"@ + tag + attrs_text + ">"@)
            } else if children.len() == 0 {
                Ok("<"@ + tag + attrs_text + "/>"@)
            } else {
                match spec_render_nodes(children, context) {
                    Ok(body) => Ok(
                        "<"@ + tag + attrs_text + ">"@ + body + "</"@ + tag + ">"@,
                    ),
                    Err(name) => Err(name),
                }
            },
            Err(name) => Err(name),
        },
    }
}

/// The nodes' renderings, concatenated in order with no separator.
pub open spec fn spec_render_nodes(ns: Seq<NodeModel>, context: Map<Seq<char>, Seq<char>>) -> Result<
    Seq<char>,
    Seq<char>,
>
    decreases ns,
{
    if ns.len() == 0 {
        Ok(Seq::empty())
    } else {
        match spec_render_node(ns[0], context) {
            Ok(first) => match spec_render_nodes(ns.subrange(1, ns.len() as int), context) {
                Ok(rest) => Ok(first + rest),
                Err(name) => Err(name),
            },
            Err(name) => Err(name),
        }
    }
}

/// Round-trip on literals: a literal content leaf renders as exactly its
/// own text, whatever the context.
pub proof fn lemma_literal_round_trip(text: Seq<char>, context: Map<Seq<char>, Seq<char>>)
    ensures
        spec_render_node(NodeModel::Content(ValueModel::Literal(text)), context) == Ok::<
            Seq<char>,
            Seq<char>,
        >(text),
{
}

/// Unbound binding failure: a binding whose name the context lacks fails
/// with exactly that name; it never renders as empty output.
pub proof fn lemma_unbound_binding(name: Seq<char>, context: Map<Seq<char>, Seq<char>>)
    requires
        !context.contains_key(name),
    ensures
        spec_render_node(NodeModel::Content(ValueModel::Binding(name)), context) == Err::<
            Seq<char>,
            Seq<char>,
        >(name),
{
}

/// Idempotent determinism: rendering the same tree against equal contexts
/// gives the same result, byte for byte.
pub proof fn lemma_render_deterministic(
    n: NodeModel,
    c1: Map<Seq<char>, Seq<char>>,
    c2: Map<Seq<char>, Seq<char>>,
)
    requires
        c1 == c2,
    ensures
        spec_render_node(n, c1) == spec_render_node(n, c2),
{
}

/// A void element renders from its tag and attributes alone: whatever its
/// children, they leave no trace in the output.
pub proof fn lemma_void_ignores_children(
    tag: Seq<char>,
    attributes: Seq<AttributeModel>,
    children1: Seq<NodeModel>,
    children2: Seq<NodeModel>,
    context: Map<Seq<char>, Seq<char>>,
)
    ensures
        spec_render_node(
            NodeModel::Element { tag, void: true, attributes, children: children1 },
            context,
        ) == spec_render_node(
            NodeModel::Element { tag, void: true, attributes, children: children2 },
            context,
        ),
{
}

/// Nesting and concatenation: children render in source order with no
/// separator, so rendering a concatenation of child sequences concatenates
/// their renderings.
pub proof fn lemma_children_concatenate(
    ns1: Seq<NodeModel>,
    ns2: Seq<NodeModel>,
    context: Map<Seq<char>, Seq<char>>,
    a: Seq<char>,
    b: Seq<char>,
)
    requires
        spec_render_nodes(ns1, context) == Ok::<Seq<char>, Seq<char>>(a),
        spec_render_nodes(ns2, context) == Ok::<Seq<char>, Seq<char>>(b),
    ensures
        spec_render_nodes(ns1 + ns2, context) == Ok::<Seq<char>, Seq<char>>(a + b),
    decreases ns1.len(),
{
    if ns1.len() == 0 {
        assert(ns1 + ns2 =~= ns2);
        assert(a =~= Seq::<char>::empty());
        assert(a + b =~= b);
    } else {
        let rest1 = ns1.subrange(1, ns1.len() as int);
        let whole = ns1 + ns2;
        assert(whole[0] == ns1[0]);
        assert(whole.subrange(1, whole.len() as int) =~= rest1 + ns2);
        match spec_render_node(ns1[0], context) {
            Ok(first) => {
                match spec_render_nodes(rest1, context) {
                    Ok(ra) => {
                        lemma_children_concatenate(rest1, ns2, context, ra, b);
                        assert(first + (ra + b) =~= (first + ra) + b);
                        assert(a == first + ra);
                    },
                    Err(_) => {},
                }
            },
            Err(_) => {},
        }
    }
}

/// Attribute order preservation: attributes serialize in stored order,
/// appended one after the other — no merge, no reordering, no
/// deduplication — so a concatenation of attribute sequences renders as
/// the concatenation of their serializations.
pub proof fn lemma_attributes_append(
    attrs1: Seq<AttributeModel>,
    attrs2: Seq<AttributeModel>,
    context: Map<Seq<char>, Seq<char>>,
    a: Seq<char>,
    b: Seq<char>,
)
    requires
        spec_render_attrs(attrs1, context) == Ok::<Seq<char>, Seq<char>>(a),
        spec_render_attrs(attrs2, context) == Ok::<Seq<char>, Seq<char>>(b),
    ensures
        spec_render_attrs(attrs1 + attrs2, context) == Ok::<Seq<char>, Seq<char>>(a + b),
    decreases attrs1.len(),
{
    if attrs1.len() == 0 {
        assert(attrs1 + attrs2 =~= attrs2);
        assert(a =~= Seq::<char>::empty());
        assert(a + b =~= b);
    } else {
        let rest1 = attrs1.subrange(1, attrs1.len() as int);
        let whole = attrs1 + attrs2;
        assert(whole[0] == attrs1[0]);
        assert(whole.subrange(1, whole.len() as int) =~= rest1 + attrs2);
        match spec_render_attr(attrs1[0], context) {
            Ok(first) => {
                match spec_render_attrs(rest1, context) {
                    Ok(ra) => {
                        lemma_attributes_append(rest1, attrs2, context, ra, b);
                        assert(first + (ra + b) =~= (first + ra) + b);
                        assert(a == first + ra);
                    },
                    Err(_) => {},
                }
            },
            Err(_) => {},
        }
    }
}

/// Attributes whose values are all literals.
pub open spec fn attrs_literal_only(attrs: Seq<AttributeModel>) -> bool {
    forall|i: int| 0 <= i < attrs.len() ==> (#[trigger] attrs[i]).value is Literal
}

/// A tree without bindings: every value in it is a literal.
pub open spec fn node_literal_only(n: NodeModel) -> bool
    decreases n,
{
    match n {
        NodeModel::Content(v) => v is Literal,
        NodeModel::Element { tag: _, void: _, attributes, children } => attrs_literal_only(
            attributes,
        ) && nodes_literal_only(children),
    }
}

/// A sequence of trees without bindings.
pub open spec fn nodes_literal_only(ns: Seq<NodeModel>) -> bool
    decreases ns,
{
    ns.len() == 0 || (node_literal_only(ns[0]) && nodes_literal_only(
        ns.subrange(1, ns.len() as int),
    ))
}

/// Attributes without bindings always serialize, the same way against any
/// context.
pub proof fn lemma_attrs_literal_render(
    attrs: Seq<AttributeModel>,
    c1: Map<Seq<char>, Seq<char>>,
    c2: Map<Seq<char>, Seq<char>>,
)
    requires
        attrs_literal_only(attrs),
    ensures
        spec_render_attrs(attrs, c1) is Ok,
        spec_render_attrs(attrs, c1) == spec_render_attrs(attrs, c2),
    decreases attrs.len(),
{
    if attrs.len() > 0 {
        assert(attrs[0].value is Literal);
        lemma_attrs_literal_render(attrs.subrange(1, attrs.len() as int), c1, c2);
    }
}

/// A tree without bindings always renders, the same way against any
/// context.
pub proof fn lemma_node_literal_render(
    n: NodeModel,
    c1: Map<Seq<char>, Seq<char>>,
    c2: Map<Seq<char>, Seq<char>>,
)
    requires
        node_literal_only(n),
    ensures
        spec_render_node(n, c1) is Ok,
        spec_render_node(n, c1) == spec_render_node(n, c2),
    decreases n,
{
    match n {
        NodeModel::Content(_) => {},
        NodeModel::Element { tag: _, void: _, attributes, children } => {
            lemma_attrs_literal_render(attributes, c1, c2);
            lemma_nodes_literal_render(children, c1, c2);
        },
    }
}

/// Trees without bindings always render, the same way against any context.
pub proof fn lemma_nodes_literal_render(
    ns: Seq<NodeModel>,
    c1: Map<Seq<char>, Seq<char>>,
    c2: Map<Seq<char>, Seq<char>>,
)
    requires
        nodes_literal_only(ns),
    ensures
        spec_render_nodes(ns, c1) is Ok,
        spec_render_nodes(ns, c1) == spec_render_nodes(ns, c2),
    decreases ns,
{
    if ns.len() > 0 {
        lemma_node_literal_render(ns[0], c1, c2);
        lemma_nodes_literal_render(ns.subrange(1, ns.len() as int), c1, c2);
    }
}

fn resolve(v: &Value, context: &Context) -> (r: Result<String, UnboundNameError>)
    ensures
        match r {
            Ok(s) => spec_resolve(v@, context@) == Ok::<Seq<char>, Seq<char>>(s@),
            Err(e) => spec_resolve(v@, context@) == Err::<Seq<char>, Seq<char>>(e@),
        },
{
    match v {
        Value::Literal(text) => Ok(text.clone()),
        Value::Binding(name) => match context.get(name.as_str()) {
            Some(value) => Ok(value.clone()),
            None => Err(UnboundNameError { name: name.clone() }),
        },
    }
}

fn render_attribute(a: &Attribute, context: &Context) -> (r: Result<String, UnboundNameError>)
    ensures
        match r {
            Ok(s) => spec_render_attr(a@, context@) == Ok::<Seq<char>, Seq<char>>(s@),
            Err(e) => spec_render_attr(a@, context@) == Err::<Seq<char>, Seq<char>>(e@),
        },
{
    match resolve(&a.value, context) {
        Ok(value) => {
            let mut out = String::from_str(" ");
            out.append(a.name.as_str());
            out.append("=\"");
            out.append(value.as_str());
            out.append("\"");
            Ok(out)
        },
        Err(e) => Err(e),
    }
}

/// Render a tree against a context: the HTML text it spells, or the name of
/// the first unresolved binding, in rendering order. Pure: the result is a
/// function of the tree and the context alone.
#[verifier::loop_isolation(false)]
pub fn render(node: &Node, context: &Context) -> (r: Result<String, UnboundNameError>)
    ensures
        match r {
            Ok(s) => spec_render_node(node@, context@) == Ok::<Seq<char>, Seq<char>>(s@),
            Err(e) => spec_render_node(node@, context@) == Err::<Seq<char>, Seq<char>>(e@),
        },
    decreases node,
{
    match node {
        Node::Content(v) => match resolve(v, context) {
            Ok(s) => Ok(s),
            Err(e) => Err(e),
        },
        Node::Element { tag, void, attributes, children } => {
            let ghost am = attrs_view(attributes@);
            let ghost cm = nodes_view(children@);
            proof {
                crate::ast::lemma_nodes_view(children@);
                assert(node@ == (NodeModel::Element {
                    tag: tag@,
                    void: *void,
                    attributes: am,
                    children: cm,
                }));
                assert(am.subrange(0, am.len() as int) =~= am);
            }
            let mut attrs_text = String::new();
            let mut i: usize = 0;
            while i < attributes.len()
                invariant
                    i <= attributes.len(),
                    am == attrs_view(attributes@),
                    am.len() == attributes@.len(),
                    node@ == (NodeModel::Element {
                        tag: tag@,
                        void: *void,
                        attributes: am,
                        children: cm,
                    }),
                    match spec_render_attrs(am.subrange(i as int, am.len() as int), context@) {
                        Ok(rest) => spec_render_attrs(am, context@) == Ok::<Seq<char>, Seq<char>>(
                            attrs_text@ + rest,
                        ),
                        Err(name) => spec_render_attrs(am, context@) == Err::<
                            Seq<char>,
                            Seq<char>,
                        >(name),
                    },
                decreases attributes.len() - i,
            {
                let ghost pending = am.subrange(i as int, am.len() as int);
                proof {
                    assert(pending[0] == am[i as int]);
                    assert(am[i as int] == attributes@[i as int]@);
                    assert(pending.subrange(1, pending.len() as int) =~= am.subrange(
                        i as int + 1,
                        am.len() as int,
                    ));
                }
                match render_attribute(&attributes[i], context) {
                    Ok(s) => {
                        let ghost acc0 = attrs_text@;
                        attrs_text.append(s.as_str());
                        proof {
                            let after = am.subrange(i as int + 1, am.len() as int);
                            match spec_render_attrs(after, context@) {
                                Ok(rest2) => {
                                    assert(acc0 + (s@ + rest2) =~= (acc0 + s@) + rest2);
                                },
                                Err(_) => {},
                            }
                        }
                    },
                    Err(e) => {
                        proof {
                            assert(spec_render_attrs(am, context@) == Err::<Seq<char>, Seq<char>>(
                                e@,
                            ));
                        }
                        return Err(e);
                    },
                }
                i = i + 1;
            }
            proof {
                assert(am.subrange(am.len() as int, am.len() as int) =~= Seq::<
                    AttributeModel,
                >::empty());
                assert(attrs_text@ + Seq::<char>::empty() =~= attrs_text@);
                assert(spec_render_attrs(am, context@) == Ok::<Seq<char>, Seq<char>>(attrs_text@));
            }
            let cv_len = children.len();
            if *void {
                let mut out = String::from_str("<");
                out.append(tag.as_str());
                out.append(attrs_text.as_str());
                out.append(">");
                Ok(out)
            } else if cv_len == 0 {
                let mut out = String::from_str("<");
                out.append(tag.as_str());
                out.append(attrs_text.as_str());
                out.append("/>");
                Ok(out)
            } else {
                let mut body = String::new();
                let mut j: usize = 0;
                proof {
                    assert(cm.subrange(0, cm.len() as int) =~= cm);
                }
                while j < children.len()
                    invariant
                        j <= children.len(),
                        am == attrs_view(attributes@),
                        cm == nodes_view(children@),
                        cm.len() == children@.len(),
                        cm.len() > 0,
                        !*void,
                        node@ == (NodeModel::Element {
                            tag: tag@,
                            void: *void,
                            attributes: am,
                            children: cm,
                        }),
                        spec_render_attrs(am, context@) == Ok::<Seq<char>, Seq<char>>(
                            attrs_text@,
                        ),
                        forall|k: int|
                            0 <= k < children@.len() ==> cm[k] == node_view(
                                #[trigger] children@[k],
                            ),
                        match spec_render_nodes(cm.subrange(j as int, cm.len() as int), context@) {
                            Ok(rest) => spec_render_nodes(cm, context@) == Ok::<
                                Seq<char>,
                                Seq<char>,
                            >(body@ + rest),
                            Err(name) => spec_render_nodes(cm, context@) == Err::<
                                Seq<char>,
                                Seq<char>,
                            >(name),
                        },
                    decreases children.len() - j,
                {
                    let ghost pending = cm.subrange(j as int, cm.len() as int);
                    proof {
                        assert(pending[0] == cm[j as int]);
                        assert(pending.subrange(1, pending.len() as int) =~= cm.subrange(
                            j as int + 1,
                            cm.len() as int,
                        ));
                        assert(decreases_to!(*node => (*node)->Element_children));
                        assert(decreases_to!((*node)->Element_children
                            => (*node)->Element_children@));
                        assert(decreases_to!((*node)->Element_children@
                            => (*node)->Element_children@[j as int]));
                        assert((*node)->Element_children@[j as int] == children@[j as int]);
                        assert(decreases_to!(*node => children@[j as int]));
                    }
                    match render(&children[j], context) {
                        Ok(s) => {
                            let ghost acc0 = body@;
                            body.append(s.as_str());
                            proof {
                                let after = cm.subrange(j as int + 1, cm.len() as int);
                                match spec_render_nodes(after, context@) {
                                    Ok(rest2) => {
                                        assert(acc0 + (s@ + rest2) =~= (acc0 + s@) + rest2);
                                    },
                                    Err(_) => {},
                                }
                            }
                        },
                        Err(e) => {
                            proof {
                                assert(spec_render_nodes(cm, context@) == Err::<
                                    Seq<char>,
                                    Seq<char>,
                                >(e@));
                            }
                            return Err(e);
                        },
                    }
                    j = j + 1;
                }
                proof {
                    assert(cm.subrange(cm.len() as int, cm.len() as int) =~= Seq::<
                        NodeModel,
                    >::empty());
                    assert(body@ + Seq::<char>::empty() =~= body@);
                    assert(spec_render_nodes(cm, context@) == Ok::<Seq<char>, Seq<char>>(body@));
                }
                let mut out = String::from_str("<");
                out.append(tag.as_str());
                out.append(attrs_text.as_str());
                out.append(">");
                out.append(body.as_str());
                out.append("</");
                out.append(tag.as_str());
                out.append(">");
                Ok(out)
            }
        },
    }
}

} // verus!

