//! The recursive-descent parser: token stream in, tree out.
//!
//! One function per grammar production. At each position inside a block the
//! parser disambiguates with at most three tokens of lookahead, trying in a
//! fixed priority order: nested element (full block, single-content, void),
//! content item, attribute (named, class shorthand, id shorthand). Anything
//! else is a syntax error naming the offending token; one error aborts the
//! whole parse. A void element's block admits only attributes.

use vstd::prelude::*;
use vstd::string::StringExecFns;
use crate::ast::{attrs_view, nodes_view, node_view, Attribute, AttributeModel, Node, NodeModel, Value, ValueModel};
use crate::token::{tokens_view, wf_stream, Token, TokenKind, TokenKindModel, TokenModel};

verus! {

/// What the parser was prepared to accept when it stopped.
#[derive(Clone, Copy, Debug, PartialEq, Eq, Structural)]
pub enum Expectation {
    /// An element: an identifier opening one.
    Element,
    /// What may follow an element's tag: `{`, `:` or `*`.
    ElementTail,
    /// The `{` that opens a block.
    OpenBrace,
    /// Any item of a block: attribute, content item, nested element, or `}`.
    Item,
    /// An attribute or `}`: all a void element's block admits.
    AttributeItem,
    /// A value: a string literal or an identifier.
    Value,
    /// End of input after the root element.
    EndOfInput,
}

/// A malformed source: no production matches at `position`, where `found`
/// stood in place of `expected`.
#[derive(Debug, PartialEq, Eq, Clone)]
pub struct SyntaxError {
    pub position: usize,
    pub found: TokenKind,
    pub expected: Expectation,
}

/// Mathematical model of a `SyntaxError`.
pub struct SyntaxErrorModel {
    pub position: int,
    pub found: TokenKindModel,
    pub expected: Expectation,
}

impl View for SyntaxError {
    type V = SyntaxErrorModel;

    open spec fn view(&self) -> SyntaxErrorModel {
        SyntaxErrorModel {
            position: self.position as int,
            found: self.found@,
            expected: self.expected,
        }
    }
}

/// The token at position `i`; past the end it reads as end-of-input, which
/// no production accepts.
pub open spec fn tok_at(ts: Seq<TokenModel>, i: int) -> TokenModel {
    if 0 <= i < ts.len() {
        ts[i]
    } else {
        TokenModel { kind: TokenKindModel::EndOfInput, position: 0 }
    }
}

/// The error raised at token `t` when `expected` was awaited.
pub open spec fn syntax_error_at(t: TokenModel, expected: Expectation) -> SyntaxErrorModel {
    SyntaxErrorModel { position: t.position, found: t.kind, expected: expected }
}

/// What a block may hold: any item, or only attributes inside a void
/// element's block.
pub open spec fn item_expectation(void: bool) -> Expectation {
    if void {
        Expectation::AttributeItem
    } else {
        Expectation::Item
    }
}

/// Value := Str | Ident. A string literal is taken verbatim; an identifier
/// names a binding resolved at render time.
pub open spec fn spec_parse_value(ts: Seq<TokenModel>, pos: int) -> Result<
    (ValueModel, int),
    SyntaxErrorModel,
> {
    match tok_at(ts, pos).kind {
        TokenKindModel::StringLiteral(text) => Ok((ValueModel::Literal(text), pos + 1)),
        TokenKindModel::Identifier(name) => Ok((ValueModel::Binding(name), pos + 1)),
        _ => Err(syntax_error_at(tok_at(ts, pos), Expectation::Value)),
    }
}

/// Element := Ident ('*' Block | ':' Value | Block). On success the second
/// component is the position one past what the element consumed.
pub open spec fn spec_parse_element(ts: Seq<TokenModel>, pos: int) -> Result<
    (NodeModel, int),
    SyntaxErrorModel,
>
    decreases ts.len() - pos, 0int,
{
    match tok_at(ts, pos).kind {
        TokenKindModel::Identifier(tag) => match tok_at(ts, pos + 1).kind {
            TokenKindModel::OpenBrace => match spec_parse_items(ts, pos + 2, false) {
                Ok((attrs, children, p)) => Ok(
                    (NodeModel::Element { tag, void: false, attributes: attrs, children }, p),
                ),
                Err(e) => Err(e),
            },
            TokenKindModel::Colon => match spec_parse_value(ts, pos + 2) {
                Ok((v, p)) => Ok(
                    (
                        NodeModel::Element {
                            tag,
                            void: false,
                            attributes: Seq::empty(),
                            children: seq![NodeModel::Content(v)],
                        },
                        p,
                    ),
                ),
                Err(e) => Err(e),
            },
            TokenKindModel::Star => match tok_at(ts, pos + 2).kind {
                TokenKindModel::OpenBrace => match spec_parse_items(ts, pos + 3, true) {
                    Ok((attrs, children, p)) => Ok(
                        (NodeModel::Element { tag, void: true, attributes: attrs, children }, p),
                    ),
                    Err(e) => Err(e),
                },
                _ => Err(syntax_error_at(tok_at(ts, pos + 2), Expectation::OpenBrace)),
            },
            _ => Err(syntax_error_at(tok_at(ts, pos + 1), Expectation::ElementTail)),
        },
        _ => Err(syntax_error_at(tok_at(ts, pos), Expectation::Element)),
    }
}

/// Item* '}' — the items of a block, in source order, attributes and
/// children kept apart. On success the third component is the position one
/// past the closing brace. Inside a void element's block (`void` set),
/// nested elements and content items are rejected.
pub open spec fn spec_parse_items(ts: Seq<TokenModel>, pos: int, void: bool) -> Result<
    (Seq<AttributeModel>, Seq<NodeModel>, int),
    SyntaxErrorModel,
>
    decreases ts.len() - pos, 2int,
{
    let k0 = tok_at(ts, pos).kind;
    let k1 = tok_at(ts, pos + 1).kind;
    if k0 is CloseBrace {
        Ok((Seq::empty(), Seq::empty(), pos + 1))
    } else if (k0 is Identifier && (k1 is OpenBrace || k1 is Colon || (k1 is Star && tok_at(
        ts,
        pos + 2,
    ).kind is OpenBrace))) || (k0 is Dollar && k1 is Colon) {
        // A nested element or a content item: a child of the block.
        if void {
            Err(syntax_error_at(tok_at(ts, pos), Expectation::AttributeItem))
        } else {
            match spec_parse_child(ts, pos) {
                Ok((node, p2)) => if pos < p2 <= ts.len() {
                    match spec_parse_items(ts, p2, void) {
                        Ok((attrs, children, p3)) => Ok((attrs, seq![node] + children, p3)),
                        Err(e) => Err(e),
                    }
                } else {
                    Err(syntax_error_at(tok_at(ts, pos), Expectation::Item))
                },
                Err(e) => Err(e),
            }
        }
    } else if (k0 is Identifier || k0 is Dot || k0 is Hash) && k1 is Equals {
        match spec_parse_attribute(ts, pos) {
            Ok((a, _p)) => match spec_parse_items(ts, pos + 3, void) {
                Ok((attrs, children, p3)) => Ok((seq![a] + attrs, children, p3)),
                Err(e) => Err(e),
            },
            Err(e) => Err(e),
        }
    } else {
        Err(syntax_error_at(tok_at(ts, pos), item_expectation(void)))
    }
}

/// A child item of a block: a nested element, or `$' ':' Value` as a
/// content leaf.
pub open spec fn spec_parse_child(ts: Seq<TokenModel>, pos: int) -> Result<
    (NodeModel, int),
    SyntaxErrorModel,
>
    decreases ts.len() - pos, 1int,
{
    if tok_at(ts, pos).kind is Dollar {
        match spec_parse_value(ts, pos + 2) {
            Ok((v, p)) => Ok((NodeModel::Content(v), p)),
            Err(e) => Err(e),
        }
    } else {
        spec_parse_element(ts, pos)
    }
}

/// The attribute name written at the start of an attribute item: the
/// identifier itself, or `class` / `id` for the two shorthand marks.
pub open spec fn spec_attribute_name(k: TokenKindModel) -> Seq<char> {
    match k {
        TokenKindModel::Identifier(name) => name,
        TokenKindModel::Dot => "class"@,
        _ => "id"@,
    }
}

/// Attribute := (Ident | '.' | '#') '=' Value, the first token already
/// matched by the block dispatch.
pub open spec fn spec_parse_attribute(ts: Seq<TokenModel>, pos: int) -> Result<
    (AttributeModel, int),
    SyntaxErrorModel,
> {
    match spec_parse_value(ts, pos + 2) {
        Ok((v, p)) => Ok(
            (AttributeModel { name: spec_attribute_name(tok_at(ts, pos).kind), value: v }, p),
        ),
        Err(e) => Err(e),
    }
}

/// The whole parse: exactly one element, then end of input.
pub open spec fn spec_parse(ts: Seq<TokenModel>) -> Result<NodeModel, SyntaxErrorModel> {
    match spec_parse_element(ts, 0) {
        Ok((node, p)) => if tok_at(ts, p).kind is EndOfInput {
            Ok(node)
        } else {
            Err(syntax_error_at(tok_at(ts, p), Expectation::EndOfInput))
        },
        Err(e) => Err(e),
    }
}

/// The parser never reads behind its position: two streams that agree from
/// `pos` on parse an element alike from `pos`.
pub proof fn lemma_element_frame(ts1: Seq<TokenModel>, ts2: Seq<TokenModel>, pos: int)
    requires
        ts1.len() == ts2.len(),
        forall|i: int| pos <= i < ts1.len() ==> ts1[i] == ts2[i],
    ensures
        spec_parse_element(ts1, pos) == spec_parse_element(ts2, pos),
    decreases ts1.len() - pos, 0int,
{
    assert(tok_at(ts1, pos) == tok_at(ts2, pos));
    assert(tok_at(ts1, pos + 1) == tok_at(ts2, pos + 1));
    assert(tok_at(ts1, pos + 2) == tok_at(ts2, pos + 2));
    match tok_at(ts1, pos).kind {
        TokenKindModel::Identifier(_) => match tok_at(ts1, pos + 1).kind {
            TokenKindModel::OpenBrace => {
                lemma_items_frame(ts1, ts2, pos + 2, false);
            },
            TokenKindModel::Star => {
                if tok_at(ts1, pos + 2).kind is OpenBrace {
                    lemma_items_frame(ts1, ts2, pos + 3, true);
                }
            },
            _ => {},
        },
        _ => {},
    }
}

/// The frame property for a block's child items.
pub proof fn lemma_child_frame(ts1: Seq<TokenModel>, ts2: Seq<TokenModel>, pos: int)
    requires
        ts1.len() == ts2.len(),
        forall|i: int| pos <= i < ts1.len() ==> ts1[i] == ts2[i],
    ensures
        spec_parse_child(ts1, pos) == spec_parse_child(ts2, pos),
    decreases ts1.len() - pos, 1int,
{
    assert(tok_at(ts1, pos) == tok_at(ts2, pos));
    assert(tok_at(ts1, pos + 2) == tok_at(ts2, pos + 2));
    if !(tok_at(ts1, pos).kind is Dollar) {
        lemma_element_frame(ts1, ts2, pos);
    }
}

/// The frame property for the items of a block.
pub proof fn lemma_items_frame(ts1: Seq<TokenModel>, ts2: Seq<TokenModel>, pos: int, void: bool)
    requires
        ts1.len() == ts2.len(),
        forall|i: int| pos <= i < ts1.len() ==> ts1[i] == ts2[i],
    ensures
        spec_parse_items(ts1, pos, void) == spec_parse_items(ts2, pos, void),
    decreases ts1.len() - pos, 2int,
{
    assert(tok_at(ts1, pos) == tok_at(ts2, pos));
    assert(tok_at(ts1, pos + 1) == tok_at(ts2, pos + 1));
    assert(tok_at(ts1, pos + 2) == tok_at(ts2, pos + 2));
    let k0 = tok_at(ts1, pos).kind;
    let k1 = tok_at(ts1, pos + 1).kind;
    if k0 is CloseBrace {
    } else if (k0 is Identifier && (k1 is OpenBrace || k1 is Colon || (k1 is Star && tok_at(
        ts1,
        pos + 2,
    ).kind is OpenBrace))) || (k0 is Dollar && k1 is Colon) {
        if !void {
            lemma_child_frame(ts1, ts2, pos);
            match spec_parse_child(ts1, pos) {
                Ok((_, p2)) => if pos < p2 <= ts1.len() {
                    lemma_items_frame(ts1, ts2, p2, void);
                } else {
                },
                Err(_) => {},
            }
        }
    } else if (k0 is Identifier || k0 is Dot || k0 is Hash) && k1 is Equals {
        match spec_parse_attribute(ts1, pos) {
            Ok(_) => {
                lemma_items_frame(ts1, ts2, pos + 3, void);
            },
            Err(_) => {},
        }
    } else {
    }
}

/// An element parsed from a stream of non-empty identifiers bears
/// non-empty tags throughout: its tag is one of those identifiers, its
/// case preserved as written.
pub proof fn lemma_element_tags_nonempty(ts: Seq<TokenModel>, pos: int)
    requires
        crate::token::identifiers_nonempty(ts),
    ensures
        spec_parse_element(ts, pos) matches Ok(r) ==> crate::ast::node_tags_nonempty(r.0),
    decreases ts.len() - pos, 0int,
{
    match tok_at(ts, pos).kind {
        TokenKindModel::Identifier(tag) => {
            assert(tag.len() >= 1);
            match tok_at(ts, pos + 1).kind {
                TokenKindModel::OpenBrace => {
                    lemma_items_tags_nonempty(ts, pos + 2, false);
                },
                TokenKindModel::Colon => {
                    match spec_parse_value(ts, pos + 2) {
                        Ok((v, _)) => {
                            let children = seq![NodeModel::Content(v)];
                            assert(children.subrange(1, 1) =~= Seq::<NodeModel>::empty());
                            assert(crate::ast::nodes_tags_nonempty(Seq::<NodeModel>::empty()));
                            assert(children[0] == NodeModel::Content(v));
                            assert(crate::ast::node_tags_nonempty(NodeModel::Content(v)));
                            assert(crate::ast::nodes_tags_nonempty(children));
                        },
                        Err(_) => {},
                    }
                },
                TokenKindModel::Star => {
                    if tok_at(ts, pos + 2).kind is OpenBrace {
                        lemma_items_tags_nonempty(ts, pos + 3, true);
                    }
                },
                _ => {},
            }
        },
        _ => {},
    }
}

/// A child item parsed from a stream of non-empty identifiers bears
/// non-empty tags throughout.
pub proof fn lemma_child_tags_nonempty(ts: Seq<TokenModel>, pos: int)
    requires
        crate::token::identifiers_nonempty(ts),
    ensures
        spec_parse_child(ts, pos) matches Ok(r) ==> crate::ast::node_tags_nonempty(r.0),
    decreases ts.len() - pos, 1int,
{
    if !(tok_at(ts, pos).kind is Dollar) {
        lemma_element_tags_nonempty(ts, pos);
    }
}

/// The children parsed out of a block from a stream of non-empty
/// identifiers bear non-empty tags throughout.
pub proof fn lemma_items_tags_nonempty(ts: Seq<TokenModel>, pos: int, void: bool)
    requires
        crate::token::identifiers_nonempty(ts),
    ensures
        spec_parse_items(ts, pos, void) matches Ok(r) ==> crate::ast::nodes_tags_nonempty(r.1),
    decreases ts.len() - pos, 2int,
{
    let k0 = tok_at(ts, pos).kind;
    let k1 = tok_at(ts, pos + 1).kind;
    if k0 is CloseBrace {
    } else if (k0 is Identifier && (k1 is OpenBrace || k1 is Colon || (k1 is Star && tok_at(
        ts,
        pos + 2,
    ).kind is OpenBrace))) || (k0 is Dollar && k1 is Colon) {
        if !void {
            lemma_child_tags_nonempty(ts, pos);
            match spec_parse_child(ts, pos) {
                Ok((node, p2)) => if pos < p2 <= ts.len() {
                    lemma_items_tags_nonempty(ts, p2, void);
                    match spec_parse_items(ts, p2, void) {
                        Ok((_, children, _)) => {
                            crate::ast::lemma_nodes_tags_cons(node, children);
                        },
                        Err(_) => {},
                    }
                } else {
                },
                Err(_) => {},
            }
        }
    } else if (k0 is Identifier || k0 is Dot || k0 is Hash) && k1 is Equals {
        match spec_parse_attribute(ts, pos) {
            Ok(_) => {
                lemma_items_tags_nonempty(ts, pos + 3, void);
            },
            Err(_) => {},
        }
    } else {
    }
}

/// What parsing scanned source accepts is a tree whose every element
/// bears a non-empty tag, the case of each preserved as written.
pub proof fn lemma_parsed_tags_nonempty(source: Seq<char>)
    ensures
        spec_parse(crate::token::spec_scan(source, 0)) matches Ok(n)
            ==> crate::ast::node_tags_nonempty(n),
{
    crate::token::lemma_spec_scan_identifiers(source, 0);
    lemma_element_tags_nonempty(crate::token::spec_scan(source, 0), 0);
}

/// Shorthand equivalence, class: the attribute item `. = value` parses to
/// exactly what `class = value` parses to.
pub proof fn lemma_class_shorthand(ts1: Seq<TokenModel>, ts2: Seq<TokenModel>, pos: int)
    requires
        ts1.len() == ts2.len(),
        forall|i: int| 0 <= i < ts1.len() && i != pos ==> ts1[i] == ts2[i],
        tok_at(ts1, pos).kind is Dot,
        tok_at(ts2, pos).kind == TokenKindModel::Identifier("class"@),
    ensures
        spec_parse_attribute(ts1, pos) == spec_parse_attribute(ts2, pos),
{
    assert(tok_at(ts1, pos + 2) == tok_at(ts2, pos + 2));
}

/// Shorthand equivalence, id: the attribute item `# = value` parses to
/// exactly what `id = value` parses to.
pub proof fn lemma_id_shorthand(ts1: Seq<TokenModel>, ts2: Seq<TokenModel>, pos: int)
    requires
        ts1.len() == ts2.len(),
        forall|i: int| 0 <= i < ts1.len() && i != pos ==> ts1[i] == ts2[i],
        tok_at(ts1, pos).kind is Hash,
        tok_at(ts2, pos).kind == TokenKindModel::Identifier("id"@),
    ensures
        spec_parse_attribute(ts1, pos) == spec_parse_attribute(ts2, pos),
{
    assert(tok_at(ts1, pos + 2) == tok_at(ts2, pos + 2));
}

/// Shorthand equivalence inside a block: spelling an attribute with `.` or
/// `#` at `pos` instead of `class` or `id` leaves the whole block's parse
/// unchanged.
pub proof fn lemma_shorthand_items_equivalent(
    ts1: Seq<TokenModel>,
    ts2: Seq<TokenModel>,
    pos: int,
    void: bool,
)
    requires
        ts1.len() == ts2.len(),
        forall|i: int| 0 <= i < ts1.len() && i != pos ==> ts1[i] == ts2[i],
        (tok_at(ts1, pos).kind is Dot && tok_at(ts2, pos).kind == TokenKindModel::Identifier(
            "class"@,
        )) || (tok_at(ts1, pos).kind is Hash && tok_at(ts2, pos).kind
            == TokenKindModel::Identifier("id"@)),
        tok_at(ts1, pos + 1).kind is Equals,
    ensures
        spec_parse_items(ts1, pos, void) == spec_parse_items(ts2, pos, void),
{
    assert(tok_at(ts1, pos + 1) == tok_at(ts2, pos + 1));
    assert(tok_at(ts1, pos + 2) == tok_at(ts2, pos + 2));
    if tok_at(ts1, pos).kind is Dot {
        lemma_class_shorthand(ts1, ts2, pos);
    } else {
        lemma_id_shorthand(ts1, ts2, pos);
    }
    match spec_parse_attribute(ts1, pos) {
        Ok(_) => {
            assert(forall|i: int| pos + 3 <= i < ts1.len() ==> ts1[i] == ts2[i]);
            lemma_items_frame(ts1, ts2, pos + 3, void);
        },
        Err(_) => {},
    }
}

/// Single-content shorthand equivalence: `tag: value` spells exactly the
/// tree that `tag { $: value }` spells.
pub proof fn lemma_single_content_shorthand(ts1: Seq<TokenModel>, ts2: Seq<TokenModel>)
    requires
        ts1.len() == 4,
        ts2.len() == 7,
        ts1[0].kind is Identifier,
        ts1[1].kind is Colon,
        ts1[2].kind is StringLiteral || ts1[2].kind is Identifier,
        ts1[3].kind is EndOfInput,
        ts2[0].kind == ts1[0].kind,
        ts2[1].kind is OpenBrace,
        ts2[2].kind is Dollar,
        ts2[3].kind is Colon,
        ts2[4].kind == ts1[2].kind,
        ts2[5].kind is CloseBrace,
        ts2[6].kind is EndOfInput,
    ensures
        spec_parse(ts1) is Ok,
        spec_parse(ts1) == spec_parse(ts2),
{
    let v1 = spec_parse_value(ts1, 2);
    let v2 = spec_parse_value(ts2, 4);
    assert(v1 is Ok && v2 is Ok && v1->Ok_0.0 == v2->Ok_0.0);
    let child = NodeModel::Content(v1->Ok_0.0);
    assert(spec_parse_child(ts2, 2) == Ok::<(NodeModel, int), SyntaxErrorModel>((child, 5)));
    assert(spec_parse_items(ts2, 5, false) == Ok::<
        (Seq<AttributeModel>, Seq<NodeModel>, int),
        SyntaxErrorModel,
    >((Seq::empty(), Seq::empty(), 6)));
    assert(seq![child] + Seq::<NodeModel>::empty() =~= seq![child]);
    assert(spec_parse_items(ts2, 2, false) == Ok::<
        (Seq<AttributeModel>, Seq<NodeModel>, int),
        SyntaxErrorModel,
    >((Seq::empty(), seq![child], 6)));
}

fn clone_token_kind(k: &TokenKind) -> (r: TokenKind)
    ensures
        r@ == k@,
{
    match k {
        TokenKind::Identifier(s) => TokenKind::Identifier(s.clone()),
        TokenKind::StringLiteral(s) => TokenKind::StringLiteral(s.clone()),
        TokenKind::OpenBrace => TokenKind::OpenBrace,
        TokenKind::CloseBrace => TokenKind::CloseBrace,
        TokenKind::Star => TokenKind::Star,
        TokenKind::Colon => TokenKind::Colon,
        TokenKind::Equals => TokenKind::Equals,
        TokenKind::Dot => TokenKind::Dot,
        TokenKind::Hash => TokenKind::Hash,
        TokenKind::Dollar => TokenKind::Dollar,
        TokenKind::EndOfInput => TokenKind::EndOfInput,
    }
}

fn error_at(toks: &Vec<Token>, pos: usize, expected: Expectation) -> (r: SyntaxError)
    requires
        pos < toks@.len(),
    ensures
        r@ == syntax_error_at(tok_at(tokens_view(toks@), pos as int), expected),
{
    let t = &toks[pos];
    SyntaxError { position: t.position, found: clone_token_kind(&t.kind), expected }
}

/// A token other than end-of-input never stands last in a well-formed
/// stream.
proof fn lemma_not_last(ts: Seq<TokenModel>, i: int)
    requires
        wf_stream(ts),
        0 <= i < ts.len(),
        !(ts[i].kind is EndOfInput),
    ensures
        i + 1 < ts.len(),
{
}

fn parse_value(toks: &Vec<Token>, pos: usize) -> (r: Result<(Value, usize), SyntaxError>)
    requires
        wf_stream(tokens_view(toks@)),
        pos < toks@.len(),
    ensures
        match r {
            Ok((v, p)) => {
                &&& spec_parse_value(tokens_view(toks@), pos as int) == Ok::<
                    (ValueModel, int),
                    SyntaxErrorModel,
                >((v@, p as int))
                &&& pos < p < toks@.len()
            },
            Err(e) => spec_parse_value(tokens_view(toks@), pos as int) == Err::<
                (ValueModel, int),
                SyntaxErrorModel,
            >(e@),
        },
{
    let ghost tv = tokens_view(toks@);
    let n = toks.len();
    proof {
        assert(n == tv.len());
    }
    match &toks[pos].kind {
        TokenKind::StringLiteral(text) => {
            proof {
                lemma_not_last(tv, pos as int);
            }
            Ok((Value::Literal(text.clone()), pos + 1))
        },
        TokenKind::Identifier(name) => {
            proof {
                lemma_not_last(tv, pos as int);
            }
            Ok((Value::Binding(name.clone()), pos + 1))
        },
        _ => Err(error_at(toks, pos, Expectation::Value)),
    }
}

fn parse_element(toks: &Vec<Token>, pos: usize) -> (r: Result<(Node, usize), SyntaxError>)
    requires
        wf_stream(tokens_view(toks@)),
        pos < toks@.len(),
    ensures
        match r {
            Ok((n, p)) => {
                &&& spec_parse_element(tokens_view(toks@), pos as int) == Ok::<
                    (NodeModel, int),
                    SyntaxErrorModel,
                >((n@, p as int))
                &&& pos < p < toks@.len()
            },
            Err(e) => spec_parse_element(tokens_view(toks@), pos as int) == Err::<
                (NodeModel, int),
                SyntaxErrorModel,
            >(e@),
        },
    decreases toks@.len() - pos, 0int,
{
    let ghost tv = tokens_view(toks@);
    let n = toks.len();
    proof {
        assert(n == tv.len());
    }
    match &toks[pos].kind {
        TokenKind::Identifier(tag) => {
            proof {
                lemma_not_last(tv, pos as int);
            }
            match &toks[pos + 1].kind {
                TokenKind::OpenBrace => {
                    proof {
                        lemma_not_last(tv, pos as int + 1);
                    }
                    match parse_items(toks, pos + 2, false) {
                        Ok((attributes, children, p)) => Ok(
                            (
                                Node::Element {
                                    tag: tag.clone(),
                                    void: false,
                                    attributes,
                                    children,
                                },
                                p,
                            ),
                        ),
                        Err(e) => Err(e),
                    }
                },
                TokenKind::Colon => {
                    proof {
                        lemma_not_last(tv, pos as int + 1);
                    }
                    match parse_value(toks, pos + 2) {
                        Ok((v, p)) => {
                            let mut children: Vec<Node> = Vec::new();
                            children.push(Node::Content(v));
                            proof {
                                assert(children@.len() == 1);
                                assert(children@.subrange(1, 1) =~= Seq::<Node>::empty());
                                assert(nodes_view(Seq::<Node>::empty()) =~= Seq::<
                                    NodeModel,
                                >::empty());
                                assert(nodes_view(children@) == seq![node_view(children@[0])]
                                    + nodes_view(children@.subrange(1, 1)));
                                assert(nodes_view(children@) =~= seq![
                                    node_view(children@[0]),
                                ]);
                                assert(attrs_view(Seq::<Attribute>::empty()) =~= Seq::<
                                    AttributeModel,
                                >::empty());
                            }
                            Ok(
                                (
                                    Node::Element {
                                        tag: tag.clone(),
                                        void: false,
                                        attributes: Vec::new(),
                                        children,
                                    },
                                    p,
                                ),
                            )
                        },
                        Err(e) => Err(e),
                    }
                },
                TokenKind::Star => {
                    proof {
                        lemma_not_last(tv, pos as int + 1);
                    }
                    match &toks[pos + 2].kind {
                        TokenKind::OpenBrace => {
                            proof {
                                lemma_not_last(tv, pos as int + 2);
                            }
                            match parse_items(toks, pos + 3, true) {
                                Ok((attributes, children, p)) => Ok(
                                    (
                                        Node::Element {
                                            tag: tag.clone(),
                                            void: true,
                                            attributes,
                                            children,
                                        },
                                        p,
                                    ),
                                ),
                                Err(e) => Err(e),
                            }
                        },
                        _ => Err(error_at(toks, pos + 2, Expectation::OpenBrace)),
                    }
                },
                _ => Err(error_at(toks, pos + 1, Expectation::ElementTail)),
            }
        },
        _ => Err(error_at(toks, pos, Expectation::Element)),
    }
}

fn parse_child(toks: &Vec<Token>, pos: usize) -> (r: Result<(Node, usize), SyntaxError>)
    requires
        wf_stream(tokens_view(toks@)),
        pos < toks@.len(),
        tok_at(tokens_view(toks@), pos as int).kind is Dollar ==> tok_at(
            tokens_view(toks@),
            pos as int + 1,
        ).kind is Colon,
    ensures
        match r {
            Ok((n, p)) => {
                &&& spec_parse_child(tokens_view(toks@), pos as int) == Ok::<
                    (NodeModel, int),
                    SyntaxErrorModel,
                >((n@, p as int))
                &&& pos < p < toks@.len()
            },
            Err(e) => spec_parse_child(tokens_view(toks@), pos as int) == Err::<
                (NodeModel, int),
                SyntaxErrorModel,
            >(e@),
        },
    decreases toks@.len() - pos, 1int,
{
    let ghost tv = tokens_view(toks@);
    let n = toks.len();
    proof {
        assert(n == tv.len());
    }
    if matches!(&toks[pos].kind, TokenKind::Dollar) {
        proof {
            lemma_not_last(tv, pos as int);
            lemma_not_last(tv, pos as int + 1);
        }
        match parse_value(toks, pos + 2) {
            Ok((v, p)) => Ok((Node::Content(v), p)),
            Err(e) => Err(e),
        }
    } else {
        parse_element(toks, pos)
    }
}

fn parse_items(toks: &Vec<Token>, pos: usize, void: bool) -> (r: Result<
    (Vec<Attribute>, Vec<Node>, usize),
    SyntaxError,
>)
    requires
        wf_stream(tokens_view(toks@)),
        pos < toks@.len(),
    ensures
        match r {
            Ok((attrs, children, p)) => {
                &&& spec_parse_items(tokens_view(toks@), pos as int, void) == Ok::<
                    (Seq<AttributeModel>, Seq<NodeModel>, int),
                    SyntaxErrorModel,
                >((attrs_view(attrs@), nodes_view(children@), p as int))
                &&& pos < p < toks@.len()
            },
            Err(e) => spec_parse_items(tokens_view(toks@), pos as int, void) == Err::<
                (Seq<AttributeModel>, Seq<NodeModel>, int),
                SyntaxErrorModel,
            >(e@),
        },
    decreases toks@.len() - pos, 2int,
{
    let ghost tv = tokens_view(toks@);
    let n = toks.len();
    proof {
        assert(n == tv.len());
    }
    let is_child_start: bool;
    let is_attribute_start: bool;
    match &toks[pos].kind {
        TokenKind::CloseBrace => {
            proof {
                lemma_not_last(tv, pos as int);
                assert(attrs_view(Seq::<Attribute>::empty()) =~= Seq::<AttributeModel>::empty());
                assert(nodes_view(Seq::<Node>::empty()) =~= Seq::<NodeModel>::empty());
            }
            return Ok((Vec::new(), Vec::new(), pos + 1));
        },
        TokenKind::Identifier(_) => {
            proof {
                lemma_not_last(tv, pos as int);
            }
            match &toks[pos + 1].kind {
                TokenKind::OpenBrace | TokenKind::Colon => {
                    is_child_start = true;
                    is_attribute_start = false;
                },
                TokenKind::Star => {
                    proof {
                        lemma_not_last(tv, pos as int + 1);
                    }
                    is_child_start = matches!(&toks[pos + 2].kind, TokenKind::OpenBrace);
                    is_attribute_start = false;
                },
                TokenKind::Equals => {
                    is_child_start = false;
                    is_attribute_start = true;
                },
                _ => {
                    is_child_start = false;
                    is_attribute_start = false;
                },
            }
        },
        TokenKind::Dollar => {
            proof {
                lemma_not_last(tv, pos as int);
            }
            is_child_start = matches!(&toks[pos + 1].kind, TokenKind::Colon);
            is_attribute_start = false;
        },
        TokenKind::Dot | TokenKind::Hash => {
            proof {
                lemma_not_last(tv, pos as int);
            }
            is_child_start = false;
            is_attribute_start = matches!(&toks[pos + 1].kind, TokenKind::Equals);
        },
        _ => {
            is_child_start = false;
            is_attribute_start = false;
        },
    }
    if is_child_start {
        if void {
            Err(error_at(toks, pos, Expectation::AttributeItem))
        } else {
            match parse_child(toks, pos) {
                Ok((node, p2)) => match parse_items(toks, p2, void) {
                    Ok((attrs, mut children, p3)) => {
                        let ghost rest = children@;
                        children.insert(0, node);
                        proof {
                            assert(children@.subrange(1, children@.len() as int) =~= rest);
                            assert(nodes_view(children@) =~= seq![node_view(node)] + nodes_view(
                                rest,
                            ));
                        }
                        Ok((attrs, children, p3))
                    },
                    Err(e) => Err(e),
                },
                Err(e) => Err(e),
            }
        }
    } else if is_attribute_start {
        let name: String = match &toks[pos].kind {
            TokenKind::Identifier(n) => n.clone(),
            TokenKind::Dot => String::from_str("class"),
            _ => String::from_str("id"),
        };
        proof {
            lemma_not_last(tv, pos as int + 1);
        }
        match parse_value(toks, pos + 2) {
            Ok((value, p2)) => match parse_items(toks, p2, void) {
                Ok((mut attrs, children, p3)) => {
                    let a = Attribute { name, value };
                    let ghost am = a@;
                    let ghost rest = attrs@;
                    attrs.insert(0, a);
                    proof {
                        assert(attrs@.subrange(1, attrs@.len() as int) =~= rest);
                        assert(attrs_view(attrs@) =~= seq![am] + attrs_view(rest));
                    }
                    Ok((attrs, children, p3))
                },
                Err(e) => Err(e),
            },
            Err(e) => Err(e),
        }
    } else {
        let expected = if void {
            Expectation::AttributeItem
        } else {
            Expectation::Item
        };
        Err(error_at(toks, pos, expected))
    }
}

/// Parse a well-formed token stream into the tree it spells: exactly one
/// top-level element followed by end of input, or the first syntax error.
pub fn parse(tokens: &Vec<Token>) -> (r: Result<Node, SyntaxError>)
    requires
        wf_stream(tokens_view(tokens@)),
    ensures
        match r {
            Ok(n) => spec_parse(tokens_view(tokens@)) == Ok::<NodeModel, SyntaxErrorModel>(n@),
            Err(e) => spec_parse(tokens_view(tokens@)) == Err::<NodeModel, SyntaxErrorModel>(e@),
        },
{
    match parse_element(tokens, 0) {
        Ok((node, p)) => {
            if matches!(&tokens[p].kind, TokenKind::EndOfInput) {
                Ok(node)
            } else {
                Err(error_at(tokens, p, Expectation::EndOfInput))
            }
        },
        Err(e) => Err(e),
    }
}

/// Scan and parse source text in one call.
pub fn parse_source(source: &str) -> (r: Result<Node, SyntaxError>)
    ensures
        match r {
            Ok(n) => spec_parse(crate::token::spec_scan(source@, 0)) == Ok::<
                NodeModel,
                SyntaxErrorModel,
            >(n@),
            Err(e) => spec_parse(crate::token::spec_scan(source@, 0)) == Err::<
                NodeModel,
                SyntaxErrorModel,
            >(e@),
        },
{
    let tokens = crate::token::scan(source);
    parse(&tokens)
}

} // verus!
