//! The boundary to the HTML parser: a raw page is parsed by an outside
//! collaborator and handed to the library as a plain token stream, from
//! which the verified builder assembles the document tree.

use vstd::prelude::*;
use crate::dom::DomNode;
use crate::dom::DomToken;
use crate::dom::TokenModel;
use crate::dom::tokens_model;
use crate::dom::node_model;
use crate::dom::dom_of_tokens;
use crate::dom::build_dom;

verus! {

/// The depth-first token stream of the node tree that the HTML parser
/// yields for the given text.
pub uninterp spec fn dom_tokens_of(code: Seq<char>) -> Seq<TokenModel>;

/// Relies on `scraper::Html::parse_document`: parses HTML text
/// permissively, never failing on malformed markup, into a node tree
/// that depends on the text alone.  The tree is walked depth-first and
/// handed back as open/text/close tokens; comments, doctypes and
/// processing instructions carry no text and are left out.
#[verifier::external_body]
fn parse_dom_tokens(code: &str) -> (r: Vec<DomToken>)
    ensures
        tokens_model(r@) == dom_tokens_of(code@),
{
    let html = scraper::Html::parse_document(code);
    html.tree.root().traverse().filter_map(|edge| match edge {
        ego_tree::iter::Edge::Open(n) => match n.value() {
            scraper::Node::Element(e) => Some(DomToken::Open(e.name().to_string())),
            scraper::Node::Text(t) => Some(DomToken::Text(t.to_string())),
            _ => None,
        },
        ego_tree::iter::Edge::Close(n) => (if n.value().is_element() {
            Some(DomToken::Close)
        } else {
            None
        }),
    }).collect()
}

/// Parses HTML text through the outside parser and assembles the
/// document tree the token stream describes.
pub fn parse_document(code: &str) -> (r: DomNode)
    ensures
        node_model(r) == dom_of_tokens(dom_tokens_of(code@)),
{
    let tokens = parse_dom_tokens(code);
    build_dom(&tokens)
}

} // verus!
