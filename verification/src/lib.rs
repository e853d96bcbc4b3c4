//! A compiler for a small markup template language that expands into HTML
//! text. Source text is scanned into tokens, parsed into an immutable tree,
//! and rendered against a caller-supplied context of named bindings.

pub mod ast;
pub mod token;
pub mod parse;
pub mod render;
pub mod element;
pub mod elements;
pub mod site;
pub mod assets;
pub mod css;

pub use ast::{Attribute, Node, Value};
pub use token::{scan, Token, TokenKind};
pub use parse::{parse, parse_source, Expectation, SyntaxError};
pub use render::{render, Context, UnboundNameError};
pub use element::{BuildElement, Element, ToHTML};
pub use elements::{AddAttribute, AddContent};
pub use site::{page_template, Endpoint, SiteBuilder, StaticSite};
pub use assets::{plan_asset, AssetCategory, AssetPlan};
pub use css::{Declaration, Selector};

use vstd::prelude::*;

verus! {

/// Why expanding a template failed: the source did not parse, or a binding
/// had no entry in the context.
#[derive(Debug, PartialEq, Eq, Clone)]
pub enum TemplateError {
    Syntax(SyntaxError),
    Unbound(UnboundNameError),
}

/// Expand template source against a context in one call: scan, parse,
/// render.
pub fn hyprtxt(source: &str, context: &Context) -> (r: Result<String, TemplateError>)
    ensures
        ({
            let parsed = crate::parse::spec_parse(crate::token::spec_scan(source@, 0));
            match r {
                Ok(s) => parsed is Ok && crate::render::spec_render_node(parsed->Ok_0, context@)
                    == Ok::<Seq<char>, Seq<char>>(s@),
                Err(e) => match e {
                    TemplateError::Syntax(se) => parsed == Err::<
                        crate::ast::NodeModel,
                        crate::parse::SyntaxErrorModel,
                    >(se@),
                    TemplateError::Unbound(ue) => parsed is Ok && crate::render::spec_render_node(
                        parsed->Ok_0,
                        context@,
                    ) == Err::<Seq<char>, Seq<char>>(ue@),
                },
            }
        }),
{
    match parse_source(source) {
        Ok(node) => match render(&node, context) {
            Ok(s) => Ok(s),
            Err(e) => Err(TemplateError::Unbound(e)),
        },
        Err(e) => Err(TemplateError::Syntax(e)),
    }
}

} // verus!
