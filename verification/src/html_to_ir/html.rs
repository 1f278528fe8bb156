//! The canonical tree: text and element nodes whose sibling sequences never
//! hold an empty text node or two adjacent text nodes.

use vstd::prelude::*;

verus! {

/// One canonical tree node.
#[derive(Debug, PartialEq)]
pub enum Node {
    Text(String),
    Element { tag: String, attributes: Vec<(String, String)>, children: Nodes },
}

/// A sibling sequence; `add` maintains the adjacency invariant.
#[derive(Debug, PartialEq)]
pub struct Nodes {
    pub nodes: Vec<Node>,
}

/// A parsed document: its top-level canonical nodes.
#[derive(Debug, PartialEq)]
pub struct Document {
    pub children: Nodes,
}

/// The mathematical shape of a canonical tree node.
#[verifier::ext_equal]
pub ghost enum NodeV {
    Text(Seq<char>),
    Element { tag: Seq<char>, attributes: Seq<(Seq<char>, Seq<char>)>, children: Seq<NodeV> },
}

pub open spec fn attrs_view(attrs: Seq<(String, String)>) -> Seq<(Seq<char>, Seq<char>)> {
    attrs.map_values(|p: (String, String)| (p.0@, p.1@))
}

pub open spec fn node_view(n: Node) -> NodeV
    decreases n,
{
    match n {
        Node::Text(s) => NodeV::Text(s@),
        Node::Element { tag, attributes, children } => NodeV::Element {
            tag: tag@,
            attributes: attrs_view(attributes@),
            children: nodes_view(children.nodes@),
        },
    }
}

pub open spec fn nodes_view(ns: Seq<Node>) -> Seq<NodeV>
    decreases ns,
{
    if ns.len() == 0 {
        Seq::empty()
    } else {
        seq![node_view(ns[0])] + nodes_view(ns.drop_first())
    }
}

pub broadcast proof fn lemma_nodes_view_len(ns: Seq<Node>)
    ensures
        #[trigger] nodes_view(ns).len() == ns.len(),
    decreases ns.len(),
{
    if ns.len() > 0 {
        lemma_nodes_view_len(ns.drop_first());
    }
}

pub broadcast proof fn lemma_nodes_view_index(ns: Seq<Node>, i: int)
    requires
        0 <= i < ns.len(),
    ensures
        #[trigger] nodes_view(ns)[i] == node_view(ns[i]),
    decreases ns.len(),
{
    lemma_nodes_view_len(ns);
    if i > 0 {
        lemma_nodes_view_index(ns.drop_first(), i - 1);
    }
}

impl View for Node {
    type V = NodeV;

    open spec fn view(&self) -> NodeV {
        node_view(*self)
    }
}

impl View for Nodes {
    type V = Seq<NodeV>;

    open spec fn view(&self) -> Seq<NodeV> {
        nodes_view(self.nodes@)
    }
}

impl View for Document {
    type V = Seq<NodeV>;

    open spec fn view(&self) -> Seq<NodeV> {
        nodes_view(self.children.nodes@)
    }
}

/// How a node joins a sibling sequence: empty text vanishes, text joining
/// text merges into one, anything else is appended.
pub open spec fn nodes_add_spec(ns: Seq<NodeV>, n: NodeV) -> Seq<NodeV> {
    if ns.len() == 0 {
        if n is Text && n->Text_0.len() == 0 {
            ns
        } else {
            ns.push(n)
        }
    } else if ns.last() is Text && n is Text {
        ns.drop_last().push(NodeV::Text(ns.last()->Text_0 + n->Text_0))
    } else if n is Text && n->Text_0.len() == 0 {
        ns
    } else {
        ns.push(n)
    }
}

/// The adjacency invariant on one sibling sequence: no empty text node, no
/// two adjacent text nodes.
pub open spec fn siblings_wf(ns: Seq<NodeV>) -> bool {
    &&& forall|i: int|
        0 <= i < ns.len() ==> !((#[trigger] ns[i] is Text) && ns[i]->Text_0.len() == 0)
    &&& forall|i: int|
        0 <= i && i + 1 < ns.len() ==> !((#[trigger] ns[i] is Text) && ns[i + 1] is Text)
}

/// The adjacency invariant, recursively: in this node's own children and in
/// every descendant's.
pub open spec fn node_wf(n: NodeV) -> bool
    decreases n,
{
    match n {
        NodeV::Text(t) => true,
        NodeV::Element { children, .. } => siblings_wf(children) && (forall|i: int|
            0 <= i < children.len() ==> node_wf(#[trigger] children[i])),
    }
}

pub open spec fn nodes_wf(ns: Seq<NodeV>) -> bool {
    siblings_wf(ns) && (forall|i: int| 0 <= i < ns.len() ==> node_wf(#[trigger] ns[i]))
}

/// Joining any node to a well-formed sibling sequence keeps it well-formed.
pub proof fn lemma_nodes_add_wf(ns: Seq<NodeV>, n: NodeV)
    requires
        nodes_wf(ns),
        node_wf(n),
    ensures
        nodes_wf(nodes_add_spec(ns, n)),
{
    let out = nodes_add_spec(ns, n);
    if ns.len() == 0 {
        if !(n is Text && n->Text_0.len() == 0) {
            assert(out =~= seq![n]);
        }
    } else if ns.last() is Text && n is Text {
        let x = ns.last()->Text_0;
        let y = n->Text_0;
        let merged = NodeV::Text(x + y);
        assert(x.len() > 0) by {
            assert(!((ns[ns.len() - 1] is Text) && ns[ns.len() - 1]->Text_0.len() == 0));
        }
        assert(node_wf(merged));
        assert forall|i: int| 0 <= i < out.len() implies !((#[trigger] out[i] is Text)
            && out[i]->Text_0.len() == 0) by {
            if i < out.len() - 1 {
                assert(out[i] == ns[i]);
            }
        }
        assert forall|i: int|
            0 <= i && i + 1 < out.len() implies !((#[trigger] out[i] is Text) && out[i
            + 1] is Text) by {
            if i + 1 < out.len() - 1 {
                assert(out[i] == ns[i] && out[i + 1] == ns[i + 1]);
            } else {
                assert(out[i] == ns[i]);
                if i >= 0 && out[i] is Text {
                    assert(!((ns[i] is Text) && ns[i + 1] is Text));
                }
            }
        }
        assert forall|i: int| 0 <= i < out.len() implies node_wf(#[trigger] out[i]) by {
            if i < out.len() - 1 {
                assert(out[i] == ns[i]);
            }
        }
    } else if n is Text && n->Text_0.len() == 0 {
    } else {
        assert forall|i: int| 0 <= i < out.len() implies !((#[trigger] out[i] is Text)
            && out[i]->Text_0.len() == 0) by {
            if i < out.len() - 1 {
                assert(out[i] == ns[i]);
            }
        }
        assert forall|i: int|
            0 <= i && i + 1 < out.len() implies !((#[trigger] out[i] is Text) && out[i
            + 1] is Text) by {
            if i + 1 < out.len() - 1 {
                assert(out[i] == ns[i] && out[i + 1] == ns[i + 1]);
            } else {
                assert(out[i] == ns[i]);
                if ns[i] is Text {
                    assert(!(ns.last() is Text && n is Text));
                    assert(!(n is Text));
                }
            }
        }
        assert forall|i: int| 0 <= i < out.len() implies node_wf(#[trigger] out[i]) by {
            if i < out.len() - 1 {
                assert(out[i] == ns[i]);
            }
        }
    }
}

impl Node {
    pub fn is_text(&self) -> (r: bool)
        ensures
            r == (self@ is Text),
    {
        match *self {
            Node::Text(_) => true,
            _ => false,
        }
    }

    pub fn is_element(&self) -> (r: bool)
        ensures
            r == (self@ is Element),
    {
        match *self {
            Node::Element { .. } => true,
            _ => false,
        }
    }

    /// The text of a text node; nothing for an element.
    pub fn unwrap_text(self) -> (r: Option<String>)
        ensures
            match r {
                Option::Some(s) => self@ == NodeV::Text(s@),
                Option::None => self@ is Element,
            },
    {
        match self {
            Node::Text(x) => Some(x),
            _ => None,
        }
    }
}

impl Nodes {
    pub fn new() -> (r: Self)
        ensures
            r@ == Seq::<NodeV>::empty(),
    {
        let r = Nodes { nodes: Vec::new() };
        proof {
            assert(r@ =~= Seq::<NodeV>::empty());
        }
        r
    }

    pub fn add(self, node: Node) -> (r: Self)
        ensures
            r@ == nodes_add_spec(self@, node@),
    {
        proof {
            broadcast use lemma_nodes_view_len, lemma_nodes_view_index;

        }
        let mut nodes = self.nodes;
        let ghost old_nodes = nodes@;
        match (nodes.pop(), node) {
            (None, Node::Text(x)) => {
                if x.as_str().is_empty() {
                    let r = Nodes { nodes };
                    proof {
                        assert(r@ =~= nodes_add_spec(nodes_view(old_nodes), NodeV::Text(x@)));
                    }
                    r
                } else {
                    nodes.push(Node::Text(x));
                    let r = Nodes { nodes };
                    proof {
                        assert(nodes_view(old_nodes).len() == 0);
                        assert(r@ =~= Seq::<NodeV>::empty().push(node_view(nodes@.last())));
                    }
                    r
                }
            },
            (None, other) => {
                nodes.push(other);
                let r = Nodes { nodes };
                proof {
                    assert(nodes_view(old_nodes).len() == 0);
                    assert(r@ =~= Seq::<NodeV>::empty().push(node_view(nodes@.last())));
                }
                r
            },
            (Some(Node::Text(x)), Node::Text(y)) => {
                proof {
                    assert(nodes_view(old_nodes).last() == node_view(old_nodes.last()));
                    assert(nodes_view(old_nodes.drop_last()) =~= nodes_view(
                        old_nodes,
                    ).drop_last());
                }
                let ghost xv = x@;
                let merged = x.concat(y.as_str());
                nodes.push(Node::Text(merged));
                let r = Nodes { nodes };
                proof {
                    assert(r@ =~= nodes_view(old_nodes.drop_last()).push(NodeV::Text(xv + y@)));
                    assert(r@ =~= nodes_add_spec(nodes_view(old_nodes), NodeV::Text(y@)));
                }
                r
            },
            (Some(x), Node::Text(y)) => {
                proof {
                    assert(nodes_view(old_nodes).last() == node_view(old_nodes.last()));
                    assert(!(node_view(old_nodes.last()) is Text));
                }
                if y.as_str().is_empty() {
                    nodes.push(x);
                    let r = Nodes { nodes };
                    proof {
                        assert(nodes@ =~= old_nodes);
                        assert(r@ =~= nodes_view(old_nodes));
                    }
                    r
                } else {
                    nodes.push(x);
                    nodes.push(Node::Text(y));
                    let r = Nodes { nodes };
                    proof {
                        assert(nodes@ =~= old_nodes.push(Node::Text(y)));
                        assert(r@ =~= nodes_view(old_nodes).push(NodeV::Text(y@)));
                    }
                    r
                }
            },
            (Some(x), other) => {
                proof {
                    assert(nodes_view(old_nodes).last() == node_view(old_nodes.last()));
                    assert(!(node_view(other) is Text));
                }
                nodes.push(x);
                nodes.push(other);
                let r = Nodes { nodes };
                proof {
                    assert(nodes@ =~= old_nodes.push(other));
                    assert(r@ =~= nodes_view(old_nodes).push(node_view(other)));
                }
                r
            },
        }
    }

    /// Takes the last node out.
    pub fn pop(&mut self) -> (r: Option<Node>)
        ensures
            match r {
                Option::Some(n) => old(self)@.len() > 0 && n@ == old(self)@.last() && final(self)@
                    == old(self)@.drop_last(),
                Option::None => old(self)@.len() == 0 && final(self)@ == old(self)@,
            },
    {
        proof {
            broadcast use lemma_nodes_view_len, lemma_nodes_view_index;

        }
        let ghost old_nodes = self.nodes@;
        let r = self.nodes.pop();
        proof {
            if old_nodes.len() > 0 {
                assert(nodes_view(old_nodes.drop_last()) =~= nodes_view(old_nodes).drop_last());
                assert(nodes_view(old_nodes).last() == node_view(old_nodes.last()));
            }
        }
        r
    }
}

impl Document {
    pub fn new() -> (r: Self)
        ensures
            r@ == Seq::<NodeV>::empty(),
    {
        let r = Document { children: Nodes::new() };
        r
    }

    pub fn add(self, child: Node) -> (r: Self)
        ensures
            r@ == nodes_add_spec(self@, child@),
    {
        Document { children: self.children.add(child) }
    }
}

} // verus!
