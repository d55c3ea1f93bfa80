//! The element tree of a picture, as plain values, and its serialization with
//! the `svg` crate.

use svg::node::element::Element;
use svg::node::Node as SvgNode;
use vstd::prelude::*;

verus! {

/// An SVG element: its tag, its attributes in the order they are set, the
/// texts it holds, and its child elements.
pub struct Node {
    pub tag: String,
    pub attrs: Vec<(String, String)>,
    pub texts: Vec<String>,
    pub children: Vec<Node>,
}

/// The value of a [`Node`].
pub ghost struct NodeV {
    pub tag: Seq<char>,
    pub attrs: Seq<(Seq<char>, Seq<char>)>,
    pub texts: Seq<Seq<char>>,
    pub children: Seq<NodeV>,
}

pub open spec fn attrs_view(a: Seq<(String, String)>) -> Seq<(Seq<char>, Seq<char>)> {
    a.map_values(|p: (String, String)| (p.0@, p.1@))
}

pub open spec fn texts_view(t: Seq<String>) -> Seq<Seq<char>> {
    t.map_values(|s: String| s@)
}

pub open spec fn node_view(n: Node) -> NodeV
    decreases n,
{
    NodeV {
        tag: n.tag@,
        attrs: attrs_view(n.attrs@),
        texts: texts_view(n.texts@),
        children: nodes_view(n.children@),
    }
}

pub open spec fn nodes_view(ns: Seq<Node>) -> Seq<NodeV>
    decreases ns,
{
    if ns.len() == 0 {
        Seq::empty()
    } else {
        nodes_view(ns.subrange(0, ns.len() - 1)).push(node_view(ns[ns.len() - 1]))
    }
}

impl View for Node {
    type V = NodeV;

    open spec fn view(&self) -> NodeV {
        node_view(*self)
    }
}

pub proof fn lemma_nodes_push(ns: Seq<Node>, n: Node)
    ensures
        nodes_view(ns.push(n)) == nodes_view(ns).push(node_view(n)),
        nodes_view(ns).len() == ns.len(),
    decreases ns.len(),
{
    assert(ns.push(n).subrange(0, ns.len() as int) =~= ns);
    if ns.len() > 0 {
        lemma_nodes_push(ns.subrange(0, ns.len() - 1), ns[ns.len() - 1]);
        assert(ns.subrange(0, ns.len() - 1).push(ns[ns.len() - 1]) =~= ns);
    }
}

#[verifier::external_type_specification]
#[verifier::external_body]
pub struct ExElement(Element);

/// The SVG text that the `svg` crate prints for an element tree. Its
/// `Display` sorts the attributes by name, so the text depends on the tree alone.
pub uninterp spec fn svg_text(n: NodeV) -> Seq<char>;

/// Relies on `Element::new`, `Node::assign` and `Node::append` of `Element`
/// and on `svg::node::Text::new`: the crate's element for the tree, one
/// element, attribute, text and child for each of ours.
#[verifier::external_body]
fn element_of(n: &Node) -> Element {
    let mut e = Element::new(n.tag.as_str());
    for (name, value) in n.attrs.iter() {
        e.assign(name.as_str(), value.as_str());
    }
    for t in n.texts.iter() {
        e.append(svg::node::Text::new(t.as_str()));
    }
    for c in n.children.iter() {
        e.append(element_of(c));
    }
    e
}

/// Relies on the `Display` impl of `Element`: the serialized element tree.
#[verifier::external_body]
pub(crate) fn serialize(n: &Node) -> (r: String)
    ensures
        r@ == svg_text(n@),
{
    element_of(n).to_string()
}

} // verus!
