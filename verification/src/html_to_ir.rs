//! From parsed HTML to the intermediate representation: the canonical tree,
//! the tag-normalization passes, the tag-dispatching builder, and the
//! boundary to the external markup parser.

pub mod convert;
pub mod html;
pub mod optimize;
pub mod optnode;
pub mod optnodes;

use std::rc::Rc;

use html5ever::tendril::TendrilSink;
use markup5ever_rcdom::Node as DomNode;
use markup5ever_rcdom::NodeData as DomNodeData;
use vstd::prelude::*;

verus! {

broadcast use
    crate::html_to_ir::html::lemma_nodes_view_len,
    crate::html_to_ir::html::lemma_nodes_view_index;

#[verifier::external_type_specification]
#[verifier::external_body]
pub struct ExDomNode(DomNode);

/// What the conversion reads out of one DOM node.
pub enum DomInfo {
    Doc,
    Text(String),
    Element(String, Vec<(String, String)>),
    Other,
}

/// The mathematical shape of one DOM reading.
#[verifier::ext_equal]
pub ghost enum DomInfoV {
    Doc,
    Text(Seq<char>),
    Element(Seq<char>, Seq<(Seq<char>, Seq<char>)>),
    Other,
}

impl View for DomInfo {
    type V = DomInfoV;

    open spec fn view(&self) -> DomInfoV {
        match self {
            DomInfo::Doc => DomInfoV::Doc,
            DomInfo::Text(x) => DomInfoV::Text(x@),
            DomInfo::Element(tag, attrs) => DomInfoV::Element(
                tag@,
                crate::html_to_ir::html::attrs_view(attrs@),
            ),
            DomInfo::Other => DomInfoV::Other,
        }
    }
}

/// The canonical node one DOM reading yields, around its already-converted
/// children: a text reading keeps its text, an element reading keeps tag and
/// attributes, and a document or other reading becomes an empty text node,
/// which the sibling invariant then discards.
pub open spec fn node_from_info_spec(info: DomInfoV, children: Seq<html::NodeV>) -> html::NodeV {
    match info {
        DomInfoV::Text(x) => html::NodeV::Text(x),
        DomInfoV::Element(tag, attributes) => html::NodeV::Element { tag, attributes, children },
        DomInfoV::Doc => html::NodeV::Text(Seq::empty()),
        DomInfoV::Other => html::NodeV::Text(Seq::empty()),
    }
}

fn node_from_info(info: DomInfo, children: html::Nodes) -> (r: html::Node)
    ensures
        r@ == node_from_info_spec(info@, children@),
{
    match info {
        DomInfo::Text(x) => html::Node::Text(x),
        DomInfo::Element(tag, attributes) => html::Node::Element { tag, attributes, children },
        DomInfo::Doc => html::Node::Text(String::new()),
        DomInfo::Other => html::Node::Text(String::new()),
    }
}

/// Relies on html5ever's `parse_document` driven into `markup5ever_rcdom`'s
/// `RcDom`: parses the whole string and hands back the document root.  The
/// tree behind the handle is opaque here; the accessors below read it.
#[verifier::external_body]
fn parse_html(contents: &str) -> (r: Rc<DomNode>) {
    let dom = html5ever::parse_document(markup5ever_rcdom::RcDom::default(), Default::default())
        .one(contents);
    dom.document
}

/// Relies on `markup5ever_rcdom::NodeData`: tells the node kinds apart, one
/// arm each, copying out the tag, attribute and text strings.
#[verifier::external_body]
fn dom_info(h: &Rc<DomNode>) -> (r: DomInfo) {
    match &h.data {
        DomNodeData::Document => DomInfo::Doc,
        DomNodeData::Text { contents } => DomInfo::Text(
            contents.borrow().to_string(),
        ),
        DomNodeData::Element { name, attrs, .. } => DomInfo::Element(
            name.local.to_string(),
            attrs.borrow().iter().map(
                |a| (a.name.local.to_string(), a.value.to_string()),
            ).collect(),
        ),
        _ => DomInfo::Other,
    }
}

/// Relies on `markup5ever_rcdom::Node`: hands back the node's children.
#[verifier::external_body]
fn dom_children(h: &Rc<DomNode>) -> (r: Vec<Rc<DomNode>>) {
    h.children.borrow().clone()
}

/// Deeper DOM nesting than any real document reaches; beyond it the walk
/// yields an empty text node, which the sibling invariant discards.
pub const DOM_DEPTH_LIMIT: usize = 4096;

/// One canonical node from a DOM node: the children are converted
/// recursively, and `node_from_info` places the reading around them under an
/// exact contract.  Nothing can be promised about what the opaque DOM hands
/// back; what is promised is that the reading is combined as
/// `node_from_info_spec` says and that the result satisfies the canonical
/// tree's adjacency invariant.
fn dom_to_node(h: &Rc<DomNode>, fuel: usize) -> (r: html::Node)
    ensures
        html::node_wf(r@),
    decreases fuel,
{
    match dom_info(h) {
        DomInfo::Element(tag, attributes) => {
            if fuel == 0 {
                html::Node::Text(String::new())
            } else {
                let kids = dom_children(h);
                let n = kids.len();
                let mut children = html::Nodes::new();
                let mut i: usize = 0;
                proof {
                    assert(html::nodes_wf(children@));
                }
                while i < n
                    invariant
                        fuel >= 1,
                        i <= n,
                        n == kids@.len(),
                        html::nodes_wf(children@),
                    decreases n - i,
                {
                    let child = dom_to_node(&kids[i], fuel - 1);
                    proof {
                        html::lemma_nodes_add_wf(children@, child@);
                    }
                    children = children.add(child);
                    i = i + 1;
                }
                let ghost cs = children@;
                let r = node_from_info(DomInfo::Element(tag, attributes), children);
                proof {
                    assert(r@ is Element && r@->Element_children == cs);
                }
                r
            }
        },
        other_info => node_from_info(other_info, html::Nodes::new()),
    }
}

/// The canonical document under a DOM root; fails on a handle that is not
/// the document node.  Each child is converted by `dom_to_node` — whose
/// combination step is pinned by `node_from_info_spec` — and folded in with
/// the verified `add`, so the built forest is well-formed.
pub fn convert_dom(handle: &Rc<DomNode>) -> (r: Result<html::Document, &'static str>)
    ensures
        match r {
            Result::Ok(d) => html::nodes_wf(d@),
            Result::Err(e) => e@ == "Converting from non-Document node"@,
        },
{
    match dom_info(handle) {
        DomInfo::Doc => {
            let kids = dom_children(handle);
            let n = kids.len();
            let mut doc = html::Document::new();
            let mut i: usize = 0;
            proof {
                assert(html::nodes_wf(doc@));
            }
            while i < n
                invariant
                    i <= n,
                    n == kids@.len(),
                    html::nodes_wf(doc@),
                decreases n - i,
            {
                let child = dom_to_node(&kids[i], DOM_DEPTH_LIMIT);
                proof {
                    html::lemma_nodes_add_wf(doc@, child@);
                }
                doc = doc.add(child);
                i = i + 1;
            }
            Ok(doc)
        },
        _ => Err("Converting from non-Document node"),
    }
}

/// Parses a whole HTML text and converts it, surfacing failures: a parse
/// whose root is no document yields `ParseFailure`, and a fatal conversion
/// condition is handed through; a success is the verified conversion of the
/// parsed, well-formed canonical forest.
pub fn try_convert_file(contents: &str) -> (r: Result<
    crate::ir::Document,
    convert::ConvertError,
>)
    ensures
        match r {
            Result::Ok(d) => exists|ns: Seq<html::NodeV>|
                html::nodes_wf(ns) && #[trigger] convert::convert_document_spec(ns) == Result::<
                    Seq<crate::ir::IRV>,
                    convert::ErrV,
                >::Ok(d@),
            Result::Err(e) => (e@ is ParseFailure) || (exists|ns: Seq<html::NodeV>|
                html::nodes_wf(ns) && #[trigger] convert::convert_document_spec(ns) == Result::<
                    Seq<crate::ir::IRV>,
                    convert::ErrV,
                >::Err(e@)),
        },
{
    let root = parse_html(contents);
    match convert_dom(&root) {
        Ok(doc) => {
            let ghost ns = doc@;
            match doc.convert() {
                Ok(out) => {
                    proof {
                        assert(convert::convert_document_spec(ns) == Result::<
                            Seq<crate::ir::IRV>,
                            convert::ErrV,
                        >::Ok(out@));
                    }
                    Ok(out)
                },
                Err(e) => {
                    proof {
                        assert(convert::convert_document_spec(ns) == Result::<
                            Seq<crate::ir::IRV>,
                            convert::ErrV,
                        >::Err(e@));
                    }
                    Err(e)
                },
            }
        },
        Err(_) => Err(convert::ConvertError::ParseFailure),
    }
}

/// Parses a whole HTML text and converts it.  A failed parse or conversion
/// becomes the empty document; otherwise the result is the verified
/// conversion of the parsed canonical forest.
pub fn convert_file(contents: &str) -> (r: crate::ir::Document)
    ensures
        (exists|ns: Seq<html::NodeV>|
            html::nodes_wf(ns) && #[trigger] convert::convert_document_spec(ns) == Result::<
                Seq<crate::ir::IRV>,
                convert::ErrV,
            >::Ok(r@)) || r@ == Seq::<crate::ir::IRV>::empty(),
{
    match try_convert_file(contents) {
        Ok(doc) => doc,
        Err(_) => crate::ir::Document::new(),
    }
}

} // verus!
