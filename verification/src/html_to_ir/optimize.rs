//! Tag normalization, in two passes.  The first drops non-content tags,
//! unwraps inline-formatting tags, retags definition lists as plain lists and
//! structural wrappers as a generic division; the second flattens every
//! generic division into its parent's sibling sequence.  Every flatten point
//! re-applies the sibling adjacency invariant.

use crate::html_to_ir::html::{
    lemma_nodes_add_wf, lemma_nodes_view_index, lemma_nodes_view_len, node_view, node_wf,
    nodes_add_spec, nodes_view, nodes_wf, Node, NodeV, Nodes,
};
use crate::text::str_eq;
use vstd::prelude::*;

verus! {

broadcast use lemma_nodes_view_len, lemma_nodes_view_index, vstd::seq::axiom_seq_index_decreases;

/// Tags whose contents are discarded outright.
pub open spec fn is_drop_tag(tag: Seq<char>) -> bool {
    tag == "head"@ || tag == "button"@ || tag == "noscript"@ || tag == "form"@ || tag == "script"@
        || tag == "style"@
}

/// Inline-formatting tags: the tag goes, the contents stay.
pub open spec fn is_transparent_tag(tag: Seq<char>) -> bool {
    tag == "a"@ || tag == "i"@ || tag == "em"@ || tag == "strong"@ || tag == "mark"@ || tag == "b"@
        || tag == "span"@ || tag == "cite"@ || tag == "q"@ || tag == "small"@
}

/// Structural wrappers, retagged to a generic division for the second pass.
pub open spec fn is_wrapper_tag(tag: Seq<char>) -> bool {
    tag == "nav"@ || tag == "header"@ || tag == "footer"@ || tag == "body"@ || tag == "html"@
}

/// Joins a whole sequence of nodes, one at a time, to a sibling sequence.
pub open spec fn add_all(ns: Seq<NodeV>, more: Seq<NodeV>) -> Seq<NodeV>
    decreases more.len(),
{
    if more.len() == 0 {
        ns
    } else {
        add_all(nodes_add_spec(ns, more[0]), more.drop_first())
    }
}

/// What the first pass makes of one node.
pub open spec fn remove_tags_spec(n: NodeV) -> Seq<NodeV>
    decreases n, 1int,
{
    match n {
        NodeV::Text(x) => nodes_add_spec(Seq::empty(), NodeV::Text(x)),
        NodeV::Element { tag, attributes, children } => {
            let ch = rt_children(Seq::empty(), children);
            if is_drop_tag(tag) {
                Seq::empty()
            } else if is_transparent_tag(tag) {
                ch
            } else if tag == "dl"@ {
                seq![NodeV::Element { tag: "ul"@, attributes: Seq::empty(), children: ch }]
            } else if tag == "dt"@ || tag == "dd"@ {
                seq![NodeV::Element { tag: "li"@, attributes: Seq::empty(), children: ch }]
            } else if is_wrapper_tag(tag) {
                seq![NodeV::Element { tag: "div"@, attributes: Seq::empty(), children: ch }]
            } else {
                seq![NodeV::Element { tag, attributes, children: ch }]
            }
        },
    }
}

/// The first pass over a sibling sequence, flattened onto an accumulator.
pub open spec fn rt_children(acc: Seq<NodeV>, cs: Seq<NodeV>) -> Seq<NodeV>
    decreases cs, 2int,
{
    if cs.len() == 0 {
        acc
    } else {
        rt_children(add_all(acc, remove_tags_spec(cs[0])), cs.drop_first())
    }
}

/// What the second pass makes of one node.
pub open spec fn handle_containers_spec(n: NodeV) -> Seq<NodeV>
    decreases n, 1int,
{
    match n {
        NodeV::Text(x) => nodes_add_spec(Seq::empty(), NodeV::Text(x)),
        NodeV::Element { tag, attributes, children } => {
            let ch = hc_children(Seq::empty(), children);
            if tag == "div"@ {
                ch
            } else {
                seq![NodeV::Element { tag, attributes, children: ch }]
            }
        },
    }
}

/// The second pass over a sibling sequence, flattened onto an accumulator.
pub open spec fn hc_children(acc: Seq<NodeV>, cs: Seq<NodeV>) -> Seq<NodeV>
    decreases cs, 2int,
{
    if cs.len() == 0 {
        acc
    } else {
        hc_children(add_all(acc, handle_containers_spec(cs[0])), cs.drop_first())
    }
}

/// Both passes over a top-level sibling sequence.
pub open spec fn normalize_spec(ns: Seq<NodeV>) -> Seq<NodeV> {
    hc_children(Seq::empty(), rt_children(Seq::empty(), ns))
}

pub proof fn lemma_add_all_wf(ns: Seq<NodeV>, more: Seq<NodeV>)
    requires
        nodes_wf(ns),
        nodes_wf(more),
    ensures
        nodes_wf(add_all(ns, more)),
    decreases more.len(),
{
    if more.len() > 0 {
        assert(node_wf(more[0]));
        lemma_nodes_add_wf(ns, more[0]);
        assert(nodes_wf(more.drop_first())) by {
            assert(forall|i: int|
                0 <= i < more.drop_first().len() ==> #[trigger] more.drop_first()[i] == more[i
                    + 1]);
        }
        lemma_add_all_wf(nodes_add_spec(ns, more[0]), more.drop_first());
    }
}

/// The first pass yields a well-formed forest, whatever the input.
pub proof fn lemma_remove_tags_wf(n: NodeV)
    ensures
        nodes_wf(remove_tags_spec(n)),
    decreases n, 1int,
{
    let out = remove_tags_spec(n);
    match n {
        NodeV::Text(x) => {
            if x.len() != 0 {
                assert(out =~= seq![NodeV::Text(x)]);
            }
        },
        NodeV::Element { tag, attributes, children } => {
            lemma_rt_children_wf(Seq::empty(), children);
            let ch = rt_children(Seq::empty(), children);
            if is_drop_tag(tag) {
            } else if is_transparent_tag(tag) {
            } else {
                assert(out.len() == 1 && out[0] is Element);
                assert(node_wf(out[0]));
            }
        },
    }
}

pub proof fn lemma_rt_children_wf(acc: Seq<NodeV>, cs: Seq<NodeV>)
    requires
        nodes_wf(acc),
    ensures
        nodes_wf(rt_children(acc, cs)),
    decreases cs, 2int,
{
    if cs.len() > 0 {
        lemma_remove_tags_wf(cs[0]);
        lemma_add_all_wf(acc, remove_tags_spec(cs[0]));
        lemma_rt_children_wf(add_all(acc, remove_tags_spec(cs[0])), cs.drop_first());
    }
}

/// The second pass yields a well-formed forest, whatever the input.
pub proof fn lemma_handle_containers_wf(n: NodeV)
    ensures
        nodes_wf(handle_containers_spec(n)),
    decreases n, 1int,
{
    let out = handle_containers_spec(n);
    match n {
        NodeV::Text(x) => {
            if x.len() != 0 {
                assert(out =~= seq![NodeV::Text(x)]);
            }
        },
        NodeV::Element { tag, attributes, children } => {
            lemma_hc_children_wf(Seq::empty(), children);
            let ch = hc_children(Seq::empty(), children);
            if tag == "div"@ {
            } else {
                assert(out.len() == 1 && out[0] is Element);
                assert(node_wf(out[0]));
            }
        },
    }
}

pub proof fn lemma_hc_children_wf(acc: Seq<NodeV>, cs: Seq<NodeV>)
    requires
        nodes_wf(acc),
    ensures
        nodes_wf(hc_children(acc, cs)),
    decreases cs, 2int,
{
    if cs.len() > 0 {
        lemma_handle_containers_wf(cs[0]);
        lemma_add_all_wf(acc, handle_containers_spec(cs[0]));
        lemma_hc_children_wf(add_all(acc, handle_containers_spec(cs[0])), cs.drop_first());
    }
}

/// Normalizing any input never yields two adjacent text siblings, an empty
/// text sibling, or an ill-formed descendant.
pub proof fn lemma_normalize_wf(ns: Seq<NodeV>)
    ensures
        nodes_wf(normalize_spec(ns)),
{
    lemma_rt_children_wf(Seq::empty(), ns);
    lemma_hc_children_wf(Seq::empty(), rt_children(Seq::empty(), ns));
}

/// A dropped tag contributes nothing, whatever it holds.
pub proof fn lemma_drop_tag_yields_nothing(
    tag: Seq<char>,
    attributes: Seq<(Seq<char>, Seq<char>)>,
    children: Seq<NodeV>,
)
    requires
        is_drop_tag(tag),
    ensures
        remove_tags_spec(NodeV::Element { tag, attributes, children }) == Seq::<NodeV>::empty(),
{
}

fn is_drop(tag: &str) -> (r: bool)
    ensures
        r == is_drop_tag(tag@),
{
    str_eq(tag, "head") || str_eq(tag, "button") || str_eq(tag, "noscript") || str_eq(tag, "form")
        || str_eq(tag, "script") || str_eq(tag, "style")
}

fn is_transparent(tag: &str) -> (r: bool)
    ensures
        r == is_transparent_tag(tag@),
{
    str_eq(tag, "a") || str_eq(tag, "i") || str_eq(tag, "em") || str_eq(tag, "strong") || str_eq(
        tag,
        "mark",
    ) || str_eq(tag, "b") || str_eq(tag, "span") || str_eq(tag, "cite") || str_eq(tag, "q")
        || str_eq(tag, "small")
}

fn is_wrapper(tag: &str) -> (r: bool)
    ensures
        r == is_wrapper_tag(tag@),
{
    str_eq(tag, "nav") || str_eq(tag, "header") || str_eq(tag, "footer") || str_eq(tag, "body")
        || str_eq(tag, "html")
}

fn clone_attrs(attrs: &Vec<(String, String)>) -> (r: Vec<(String, String)>)
    ensures
        crate::html_to_ir::html::attrs_view(r@) == crate::html_to_ir::html::attrs_view(attrs@),
{
    let n = attrs.len();
    let mut r: Vec<(String, String)> = Vec::new();
    let mut i: usize = 0;
    while i < n
        invariant
            i <= n,
            n == attrs@.len(),
            r@.len() == i,
            forall|k: int| 0 <= k < i ==> (#[trigger] r@[k]).0@ == attrs@[k].0@ && r@[k].1@
                == attrs@[k].1@,
        decreases n - i,
    {
        let key = attrs[i].0.clone();
        let value = attrs[i].1.clone();
        r.push((key, value));
        i = i + 1;
    }
    proof {
        assert(crate::html_to_ir::html::attrs_view(r@) =~= crate::html_to_ir::html::attrs_view(
            attrs@,
        ));
    }
    r
}

/// Joins every node of `more` to `acc`, in order.
pub fn nodes_add_all(acc: Nodes, more: Nodes) -> (r: Nodes)
    ensures
        r@ == add_all(acc@, more@),
{
    let ghost orig = more.nodes@;
    let mut v = more.nodes;
    let mut out = acc;
    let ghost mut k: int = 0;
    proof {
        assert(orig.skip(0) =~= orig);
    }
    while v.len() > 0
        invariant
            0 <= k <= orig.len(),
            v@ == orig.skip(k),
            add_all(acc@, nodes_view(orig)) == add_all(out@, nodes_view(v@)),
        decreases v@.len(),
    {
        proof {
            assert(nodes_view(orig.skip(k))[0] == node_view(orig.skip(k)[0]));
            assert(nodes_view(orig.skip(k)).drop_first() =~= nodes_view(orig.skip(k + 1)));
            assert(orig.skip(k).remove(0) =~= orig.skip(k + 1));
        }
        let node = v.remove(0);
        out = out.add(node);
        proof {
            k = k + 1;
        }
    }
    proof {
        assert(v@ =~= Seq::<Node>::empty());
        assert(nodes_view(v@).len() == 0);
    }
    out
}

#[verifier::loop_isolation(false)]
fn rt_node(node: &Node) -> (r: Nodes)
    ensures
        r@ == remove_tags_spec(node@),
        nodes_wf(r@),
    decreases node,
{
    proof {
        lemma_remove_tags_wf(node@);
    }
    match node {
        Node::Text(x) => Nodes::new().add(Node::Text(x.clone())),
        Node::Element { tag, attributes, children } => {
            let ghost cv = nodes_view(children.nodes@);
            let n = children.nodes.len();
            let mut acc = Nodes::new();
            let mut i: usize = 0;
            proof {
                assert(cv.skip(0) =~= cv);
            }
            while i < n
                invariant
                    i <= n,
                    n == children.nodes@.len(),
                    cv == nodes_view(children.nodes@),
                    node@ == (NodeV::Element {
                        tag: tag@,
                        attributes: crate::html_to_ir::html::attrs_view(attributes@),
                        children: cv,
                    }),
                    rt_children(Seq::empty(), cv) == rt_children(acc@, cv.skip(i as int)),
                decreases n - i,
            {
                proof {
                    assert(decreases_to!(*node => node->Element_children));
                    assert(decreases_to!(node->Element_children => node->Element_children.nodes));
                    assert(decreases_to!(node->Element_children.nodes
                        => node->Element_children.nodes@));
                    assert(decreases_to!(node->Element_children.nodes@
                        => node->Element_children.nodes@[i as int]));
                    assert(node->Element_children.nodes@[i as int] == children.nodes@[i as int]);
                }
                let out = rt_node(&children.nodes[i]);
                proof {
                    assert(cv.skip(i as int)[0] == cv[i as int]);
                    assert(cv[i as int] == node_view(children.nodes@[i as int]));
                    assert(cv.skip(i as int).drop_first() =~= cv.skip(i + 1));
                }
                acc = nodes_add_all(acc, out);
                i = i + 1;
            }
            proof {
                assert(cv.skip(n as int) =~= Seq::<NodeV>::empty());
            }
            if is_drop(tag.as_str()) {
                Nodes::new()
            } else if is_transparent(tag.as_str()) {
                acc
            } else if str_eq(tag.as_str(), "dl") {
                let el = Node::Element {
                    tag: "ul".to_owned(),
                    attributes: Vec::new(),
                    children: acc,
                };
                let r = Nodes::new().add(el);
                proof {
                    assert(crate::html_to_ir::html::attrs_view(Seq::<(String, String)>::empty())
                        =~= Seq::<(Seq<char>, Seq<char>)>::empty());
                }
                r
            } else if str_eq(tag.as_str(), "dt") || str_eq(tag.as_str(), "dd") {
                let el = Node::Element {
                    tag: "li".to_owned(),
                    attributes: Vec::new(),
                    children: acc,
                };
                let r = Nodes::new().add(el);
                proof {
                    assert(crate::html_to_ir::html::attrs_view(Seq::<(String, String)>::empty())
                        =~= Seq::<(Seq<char>, Seq<char>)>::empty());
                }
                r
            } else if is_wrapper(tag.as_str()) {
                let el = Node::Element {
                    tag: "div".to_owned(),
                    attributes: Vec::new(),
                    children: acc,
                };
                let r = Nodes::new().add(el);
                proof {
                    assert(crate::html_to_ir::html::attrs_view(Seq::<(String, String)>::empty())
                        =~= Seq::<(Seq<char>, Seq<char>)>::empty());
                }
                r
            } else {
                let el = Node::Element {
                    tag: tag.clone(),
                    attributes: clone_attrs(attributes),
                    children: acc,
                };
                Nodes::new().add(el)
            }
        },
    }
}

/// The first normalization pass on one node.
pub fn remove_tags(node: Node) -> (r: Nodes)
    ensures
        r@ == remove_tags_spec(node@),
        nodes_wf(r@),
{
    rt_node(&node)
}

#[verifier::loop_isolation(false)]
fn hc_node(node: &Node) -> (r: Nodes)
    ensures
        r@ == handle_containers_spec(node@),
        nodes_wf(r@),
    decreases node,
{
    proof {
        lemma_handle_containers_wf(node@);
    }
    match node {
        Node::Text(x) => Nodes::new().add(Node::Text(x.clone())),
        Node::Element { tag, attributes, children } => {
            let ghost cv = nodes_view(children.nodes@);
            let n = children.nodes.len();
            let mut acc = Nodes::new();
            let mut i: usize = 0;
            proof {
                assert(cv.skip(0) =~= cv);
            }
            while i < n
                invariant
                    i <= n,
                    n == children.nodes@.len(),
                    cv == nodes_view(children.nodes@),
                    node@ == (NodeV::Element {
                        tag: tag@,
                        attributes: crate::html_to_ir::html::attrs_view(attributes@),
                        children: cv,
                    }),
                    hc_children(Seq::empty(), cv) == hc_children(acc@, cv.skip(i as int)),
                decreases n - i,
            {
                proof {
                    assert(decreases_to!(*node => node->Element_children));
                    assert(decreases_to!(node->Element_children => node->Element_children.nodes));
                    assert(decreases_to!(node->Element_children.nodes
                        => node->Element_children.nodes@));
                    assert(decreases_to!(node->Element_children.nodes@
                        => node->Element_children.nodes@[i as int]));
                    assert(node->Element_children.nodes@[i as int] == children.nodes@[i as int]);
                }
                let out = hc_node(&children.nodes[i]);
                proof {
                    assert(cv.skip(i as int)[0] == cv[i as int]);
                    assert(cv[i as int] == node_view(children.nodes@[i as int]));
                    assert(cv.skip(i as int).drop_first() =~= cv.skip(i + 1));
                }
                acc = nodes_add_all(acc, out);
                i = i + 1;
            }
            proof {
                assert(cv.skip(n as int) =~= Seq::<NodeV>::empty());
            }
            if str_eq(tag.as_str(), "div") {
                acc
            } else {
                let el = Node::Element {
                    tag: tag.clone(),
                    attributes: clone_attrs(attributes),
                    children: acc,
                };
                Nodes::new().add(el)
            }
        },
    }
}

/// The second normalization pass on one node: generic divisions dissolve.
pub fn handle_containers(node: Node) -> (r: Nodes)
    ensures
        r@ == handle_containers_spec(node@),
        nodes_wf(r@),
{
    hc_node(&node)
}

/// The first pass over a whole sibling sequence.
#[verifier::loop_isolation(false)]
pub fn remove_tags_all(ns: &Nodes) -> (r: Nodes)
    ensures
        r@ == rt_children(Seq::empty(), ns@),
        nodes_wf(r@),
{
    proof {
        lemma_rt_children_wf(Seq::empty(), ns@);
    }
    let ghost cv = nodes_view(ns.nodes@);
    let n = ns.nodes.len();
    let mut acc = Nodes::new();
    let mut i: usize = 0;
    proof {
        assert(cv.skip(0) =~= cv);
    }
    while i < n
        invariant
            i <= n,
            rt_children(Seq::empty(), cv) == rt_children(acc@, cv.skip(i as int)),
        decreases n - i,
    {
        let out = rt_node(&ns.nodes[i]);
        proof {
            assert(cv.skip(i as int)[0] == cv[i as int]);
            assert(cv[i as int] == node_view(ns.nodes@[i as int]));
            assert(cv.skip(i as int).drop_first() =~= cv.skip(i + 1));
        }
        acc = nodes_add_all(acc, out);
        i = i + 1;
    }
    proof {
        assert(cv.skip(n as int) =~= Seq::<NodeV>::empty());
    }
    acc
}

/// The second pass over a whole sibling sequence.
#[verifier::loop_isolation(false)]
pub fn handle_containers_all(ns: &Nodes) -> (r: Nodes)
    ensures
        r@ == hc_children(Seq::empty(), ns@),
        nodes_wf(r@),
{
    proof {
        lemma_hc_children_wf(Seq::empty(), ns@);
    }
    let ghost cv = nodes_view(ns.nodes@);
    let n = ns.nodes.len();
    let mut acc = Nodes::new();
    let mut i: usize = 0;
    proof {
        assert(cv.skip(0) =~= cv);
    }
    while i < n
        invariant
            i <= n,
            hc_children(Seq::empty(), cv) == hc_children(acc@, cv.skip(i as int)),
        decreases n - i,
    {
        let out = hc_node(&ns.nodes[i]);
        proof {
            assert(cv.skip(i as int)[0] == cv[i as int]);
            assert(cv[i as int] == node_view(ns.nodes@[i as int]));
            assert(cv.skip(i as int).drop_first() =~= cv.skip(i + 1));
        }
        acc = nodes_add_all(acc, out);
        i = i + 1;
    }
    proof {
        assert(cv.skip(n as int) =~= Seq::<NodeV>::empty());
    }
    acc
}

} // verus!
