//! The document tree, as the decoder sees it.
//!
//! A parsed document is an opaque `roxmltree` value. Everything the decoder
//! reads from a node — its tag name, its attributes, its text content, its
//! children — is described by the ghost [`NodeV`] record, and each navigation
//! call is a small trusted wrapper whose contract speaks over that record.

use vstd::prelude::*;

verus! {

/// What one node of a parsed document holds: its local tag name (empty for
/// non-element nodes), its attribute lookup (name to value), its text
/// content, and its child nodes in document order.
pub ghost struct NodeV {
    pub tag: Seq<char>,
    pub attrs: Map<Seq<char>, Seq<char>>,
    pub text: Option<Seq<char>>,
    pub children: Seq<NodeV>,
}

#[verifier::external_type_specification]
#[verifier::external_body]
pub struct ExDocument<'input>(roxmltree::Document<'input>);

#[verifier::external_type_specification]
#[verifier::external_body]
pub struct ExNode<'a, 'input: 'a>(roxmltree::Node<'a, 'input>);

/// What `roxmltree::Document::parse` yields for a given text: the root node
/// of the tree for well-formed input, or the message of the parse error.
pub uninterp spec fn xml_doc_of(s: Seq<char>) -> Result<NodeV, Seq<char>>;

/// The root node of a parsed document value.
pub uninterp spec fn doc_view(d: roxmltree::Document) -> NodeV;

/// The contents of a node value of a parsed document.
pub uninterp spec fn node_view(n: roxmltree::Node) -> NodeV;

/// Relies on `roxmltree::Document::parse`: the tree it builds, or the error
/// it reports, depends on the text alone.
#[verifier::external_body]
pub(crate) fn xml_parse(text: &str) -> (r: Result<roxmltree::Document<'_>, String>)
    ensures
        match r {
            Ok(d) => xml_doc_of(text@) is Ok && doc_view(d) == xml_doc_of(text@)->Ok_0,
            Err(m) => xml_doc_of(text@) is Err && m@ == xml_doc_of(text@)->Err_0,
        },
{
    match roxmltree::Document::parse(text) {
        Ok(d) => Ok(d),
        Err(e) => Err(format!("{}", e)),
    }
}

/// Relies on `roxmltree::Document::root`: hands out the document's root node.
#[verifier::external_body]
pub(crate) fn doc_root<'a, 'input>(d: &'a roxmltree::Document<'input>) -> (r: roxmltree::Node<
    'a,
    'input,
>)
    ensures
        node_view(r) == doc_view(*d),
{
    d.root()
}

/// Relies on `roxmltree::Node::tag_name`: the local tag name of an element
/// node, and the empty string for any other node.
#[verifier::external_body]
pub(crate) fn node_tag(n: &roxmltree::Node) -> (r: String)
    ensures
        r@ == node_view(*n).tag,
{
    n.tag_name().name().to_string()
}

/// Relies on `roxmltree::Node::text`: for an element, the text of its
/// first child, when that first child is a text node.
#[verifier::external_body]
pub(crate) fn node_text(n: &roxmltree::Node) -> (r: Option<String>)
    ensures
        match r {
            Some(t) => node_view(*n).text matches Some(tv) && t@ == tv,
            None => node_view(*n).text is None,
        },
{
    n.text().map(|s| s.to_string())
}

/// Relies on `roxmltree::Node::attribute`: the value of the attribute with
/// the given local name, if the node carries one.
#[verifier::external_body]
pub(crate) fn node_attr(n: &roxmltree::Node, name: &str) -> (r: Option<String>)
    ensures
        match r {
            Some(v) => node_view(*n).attrs.contains_key(name@) && v@ == node_view(*n).attrs[name@],
            None => !node_view(*n).attrs.contains_key(name@),
        },
{
    n.attribute(name).map(|s| s.to_string())
}

/// Relies on `roxmltree::Node::children`: how many child nodes the node has.
#[verifier::external_body]
pub(crate) fn node_child_count(n: &roxmltree::Node) -> (r: usize)
    ensures
        r == node_view(*n).children.len(),
{
    n.children().count()
}

/// Relies on `roxmltree::Node::children`: the i-th child node, in document
/// order.
#[verifier::external_body]
pub(crate) fn node_child<'a, 'input>(n: &roxmltree::Node<'a, 'input>, i: usize) -> (r:
    roxmltree::Node<'a, 'input>)
    requires
        i < node_view(*n).children.len(),
    ensures
        node_view(r) == node_view(*n).children[i as int],
{
    n.children().nth(i).unwrap()
}

} // verus!
