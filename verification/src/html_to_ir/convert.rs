//! The builder: maps the canonical tree into the intermediate
//! representation.  Images must carry a source attribute; a list item may
//! hold only the prescribed content kinds, anything else fails the whole
//! document; an unknown top-level element degrades to a visible preformatted
//! marker; a preformatted block with non-text children degrades to empty
//! content.

use crate::group_lines::group_lines_spec;
use crate::html_to_ir::html::{
    lemma_nodes_view_index, lemma_nodes_view_len, node_view, nodes_add_spec, nodes_view, Node,
    NodeV, Nodes,
};
use crate::ir::{
    contents_view, items_view, tb_add_spec, ContentV, IRV, ListType, ListV, RunV, TableV,
};
use crate::text::{str_eq, trim_spec};
use vstd::prelude::*;
use vstd::string::StringExecFns;

verus! {

broadcast use
    lemma_nodes_view_len,
    lemma_nodes_view_index,
    crate::ir::lemma_contents_view_len,
    crate::ir::lemma_contents_view_index,
    crate::ir::lemma_items_view_len,
    crate::ir::lemma_items_view_index,
    crate::ir::lemma_texts_view_len,
    crate::ir::lemma_texts_view_index,
    crate::ir::lemma_cells_view_len,
    crate::ir::lemma_cells_view_index,
    crate::ir::lemma_rows_view_len,
    crate::ir::lemma_rows_view_index,
    crate::ir::lemma_irs_view_len,
    crate::ir::lemma_irs_view_index,
    vstd::seq::axiom_seq_index_decreases;

/// Why a conversion failed.
#[derive(Debug, PartialEq)]
pub enum ConvertError {
    /// A tag that may not stand inside a list item or table.
    UnrecognizedElement(String),
    /// An image element without a source attribute.
    MissingRequiredAttribute,
    /// The parsed tree held no document at its root.
    ParseFailure,
}

pub ghost enum ErrV {
    UnrecognizedElement(Seq<char>),
    MissingRequiredAttribute,
    ParseFailure,
}

impl View for ConvertError {
    type V = ErrV;

    open spec fn view(&self) -> ErrV {
        match self {
            ConvertError::UnrecognizedElement(tag) => ErrV::UnrecognizedElement(tag@),
            ConvertError::MissingRequiredAttribute => ErrV::MissingRequiredAttribute,
            ConvertError::ParseFailure => ErrV::ParseFailure,
        }
    }
}

/// The plain text of a node, markup discarded.
pub open spec fn flatten_text(n: NodeV) -> Seq<char>
    decreases n, 1int,
{
    match n {
        NodeV::Text(x) => x,
        NodeV::Element { children, .. } => flatten_children(children),
    }
}

pub open spec fn flatten_children(cs: Seq<NodeV>) -> Seq<char>
    decreases cs, 2int,
{
    if cs.len() == 0 {
        Seq::empty()
    } else {
        flatten_text(cs[0]) + flatten_children(cs.drop_first())
    }
}

/// The inline run one canonical node becomes: text reflows to a plain run,
/// `sup` and `sub` wrap their converted contents, `code` carries its reflowed
/// flat text, and any other element degrades to its reflowed flat text.
pub open spec fn run_of_node(n: NodeV) -> RunV
    decreases n, 5int,
{
    match n {
        NodeV::Text(x) => RunV::Plain(group_lines_spec(x)),
        NodeV::Element { tag, children, .. } => {
            if tag == "sup"@ {
                RunV::Sup(convert_textblock_spec(children))
            } else if tag == "sub"@ {
                RunV::Sub(convert_textblock_spec(children))
            } else if tag == "code"@ {
                RunV::Code(group_lines_spec(flatten_children(children)))
            } else {
                RunV::Plain(group_lines_spec(flatten_children(children)))
            }
        },
    }
}

pub open spec fn ctb_acc(acc: Seq<RunV>, cs: Seq<NodeV>) -> Seq<RunV>
    decreases cs, 3int,
{
    if cs.len() == 0 {
        acc
    } else {
        ctb_acc(tb_add_spec(acc, run_of_node(cs[0])), cs.drop_first())
    }
}

/// The merged runs a sibling sequence becomes.
pub open spec fn convert_textblock_spec(cs: Seq<NodeV>) -> Seq<RunV>
    decreases cs, 4int,
{
    ctb_acc(Seq::empty(), cs)
}

/// The list content one list-item child becomes; a tag outside the
/// prescribed kinds fails the document.
pub open spec fn content_of_node(n: NodeV) -> Result<ContentV, ErrV>
    decreases n, 8int,
{
    match n {
        NodeV::Text(x) => Result::Ok(ContentV::Text(seq![RunV::Plain(group_lines_spec(x))])),
        NodeV::Element { tag, children, .. } => {
            if tag == "ol"@ {
                match list_items_acc(Seq::empty(), children) {
                    Result::Ok(items) => Result::Ok(
                        ContentV::List(ListV { style: ListType::Ordered, items }),
                    ),
                    Result::Err(e) => Result::Err(e),
                }
            } else if tag == "ul"@ {
                match list_items_acc(Seq::empty(), children) {
                    Result::Ok(items) => Result::Ok(
                        ContentV::List(ListV { style: ListType::Unordered, items }),
                    ),
                    Result::Err(e) => Result::Err(e),
                }
            } else if tag == "p"@ {
                Result::Ok(ContentV::Text(convert_textblock_spec(children)))
            } else if tag == "sup"@ {
                Result::Ok(ContentV::Text(seq![RunV::Sup(convert_textblock_spec(children))]))
            } else if tag == "code"@ || tag == "pre"@ {
                Result::Ok(
                    ContentV::Text(
                        seq![RunV::Code(group_lines_spec(flatten_children(children)))],
                    ),
                )
            } else {
                Result::Err(ErrV::UnrecognizedElement(tag))
            }
        },
    }
}

pub open spec fn item_contents_acc(acc: Seq<ContentV>, cs: Seq<NodeV>) -> Result<
    Seq<ContentV>,
    ErrV,
>
    decreases cs, 6int,
{
    if cs.len() == 0 {
        Result::Ok(acc)
    } else {
        match content_of_node(cs[0]) {
            Result::Err(e) => Result::Err(e),
            Result::Ok(c) => item_contents_acc(acc.push(c), cs.drop_first()),
        }
    }
}

/// The contents a list item's children become.
pub open spec fn convert_list_item_spec(cs: Seq<NodeV>) -> Result<Seq<ContentV>, ErrV>
    decreases cs, 7int,
{
    item_contents_acc(Seq::empty(), cs)
}

/// The items a list's children become: text between items is passed over,
/// each `li` becomes one item, anything else fails the document.
pub open spec fn list_items_acc(acc: Seq<Seq<ContentV>>, cs: Seq<NodeV>) -> Result<
    Seq<Seq<ContentV>>,
    ErrV,
>
    decreases cs, 9int,
{
    if cs.len() == 0 {
        Result::Ok(acc)
    } else {
        match cs[0] {
            NodeV::Text(_) => list_items_acc(acc, cs.drop_first()),
            NodeV::Element { tag, children, .. } => {
                if tag == "li"@ {
                    match convert_list_item_spec(children) {
                        Result::Err(e) => Result::Err(e),
                        Result::Ok(item) => list_items_acc(acc.push(item), cs.drop_first()),
                    }
                } else {
                    Result::Err(ErrV::UnrecognizedElement(tag))
                }
            },
        }
    }
}

pub open spec fn convert_list_spec(style: ListType, cs: Seq<NodeV>) -> Result<ListV, ErrV> {
    match list_items_acc(Seq::empty(), cs) {
        Result::Ok(items) => Result::Ok(ListV { style, items }),
        Result::Err(e) => Result::Err(e),
    }
}

/// The cells a table row's children become.
pub open spec fn row_cells_acc(acc: Seq<Seq<RunV>>, cs: Seq<NodeV>) -> Result<
    Seq<Seq<RunV>>,
    ErrV,
>
    decreases cs.len(),
{
    if cs.len() == 0 {
        Result::Ok(acc)
    } else {
        match cs[0] {
            NodeV::Text(_) => row_cells_acc(acc, cs.drop_first()),
            NodeV::Element { tag, children, .. } => {
                if tag == "td"@ || tag == "th"@ {
                    row_cells_acc(acc.push(convert_textblock_spec(children)), cs.drop_first())
                } else {
                    Result::Err(ErrV::UnrecognizedElement(tag))
                }
            },
        }
    }
}

/// The rows under one table row group.
pub open spec fn group_rows_acc(acc: Seq<Seq<Seq<RunV>>>, cs: Seq<NodeV>) -> Result<
    Seq<Seq<Seq<RunV>>>,
    ErrV,
>
    decreases cs.len(),
{
    if cs.len() == 0 {
        Result::Ok(acc)
    } else {
        match cs[0] {
            NodeV::Text(_) => group_rows_acc(acc, cs.drop_first()),
            NodeV::Element { tag, children, .. } => {
                if tag == "tr"@ {
                    match row_cells_acc(Seq::empty(), children) {
                        Result::Err(e) => Result::Err(e),
                        Result::Ok(row) => group_rows_acc(acc.push(row), cs.drop_first()),
                    }
                } else {
                    Result::Err(ErrV::UnrecognizedElement(tag))
                }
            },
        }
    }
}

/// The table a `table` element's children become: the first row found under
/// a head group is the header, rows under body groups and direct rows form
/// the body, the first row found under a foot group is the footer.  Rows
/// after the first under a head or foot group, and head or foot rows once a
/// header or footer is already set, are discarded.
pub open spec fn table_acc(
    h: Option<Seq<Seq<RunV>>>,
    b: Seq<Seq<Seq<RunV>>>,
    f: Option<Seq<Seq<RunV>>>,
    cs: Seq<NodeV>,
) -> Result<TableV, ErrV>
    decreases cs.len(),
{
    if cs.len() == 0 {
        Result::Ok(TableV { header: h, body: b, footer: f })
    } else {
        match cs[0] {
            NodeV::Text(_) => table_acc(h, b, f, cs.drop_first()),
            NodeV::Element { tag, children, .. } => {
                if tag == "thead"@ {
                    match group_rows_acc(Seq::empty(), children) {
                        Result::Err(e) => Result::Err(e),
                        Result::Ok(rows) => {
                            let h2 = if h is None && rows.len() > 0 {
                                Option::Some(rows[0])
                            } else {
                                h
                            };
                            table_acc(h2, b, f, cs.drop_first())
                        },
                    }
                } else if tag == "tbody"@ {
                    match group_rows_acc(Seq::empty(), children) {
                        Result::Err(e) => Result::Err(e),
                        Result::Ok(rows) => table_acc(h, b + rows, f, cs.drop_first()),
                    }
                } else if tag == "tfoot"@ {
                    match group_rows_acc(Seq::empty(), children) {
                        Result::Err(e) => Result::Err(e),
                        Result::Ok(rows) => {
                            let f2 = if f is None && rows.len() > 0 {
                                Option::Some(rows[0])
                            } else {
                                f
                            };
                            table_acc(h, b, f2, cs.drop_first())
                        },
                    }
                } else if tag == "tr"@ {
                    match row_cells_acc(Seq::empty(), children) {
                        Result::Err(e) => Result::Err(e),
                        Result::Ok(row) => table_acc(h, b.push(row), f, cs.drop_first()),
                    }
                } else {
                    Result::Err(ErrV::UnrecognizedElement(tag))
                }
            },
        }
    }
}

pub open spec fn convert_table_spec(cs: Seq<NodeV>) -> Result<TableV, ErrV> {
    table_acc(Option::None, Seq::empty(), Option::None, cs)
}

/// The value of the first source attribute, if any.
pub open spec fn find_src(attrs: Seq<(Seq<char>, Seq<char>)>) -> Option<Seq<char>>
    decreases attrs.len(),
{
    if attrs.len() == 0 {
        Option::None
    } else if attrs[0].0 == "src"@ {
        Option::Some(attrs[0].1)
    } else {
        find_src(attrs.drop_first())
    }
}

pub open spec fn is_heading_tag(tag: Seq<char>) -> bool {
    tag == "h1"@ || tag == "h2"@ || tag == "h3"@ || tag == "h4"@ || tag == "h5"@ || tag == "h6"@
}

pub open spec fn heading_level(tag: Seq<char>) -> int {
    if tag == "h1"@ {
        1
    } else if tag == "h2"@ {
        2
    } else if tag == "h3"@ {
        3
    } else if tag == "h4"@ {
        4
    } else if tag == "h5"@ {
        5
    } else {
        6
    }
}

/// What a preformatted block carries: its sole text child, or nothing when
/// the block is empty or malformed.
pub open spec fn pre_content(cs: Seq<NodeV>) -> Seq<char> {
    if cs.len() == 1 && cs[0] is Text {
        cs[0]->Text_0
    } else {
        Seq::empty()
    }
}

/// The marker standing in for an element the builder cannot place.
pub open spec fn fallback_msg(tag: Seq<char>) -> Seq<char> {
    "Could not handle `"@ + tag + "` element"@
}

/// The document node one normalized top-level node becomes.
pub open spec fn convert_node_spec(n: NodeV) -> Result<IRV, ErrV> {
    match n {
        NodeV::Text(x) => Result::Ok(
            IRV::Par(convert_textblock_spec(nodes_add_spec(Seq::empty(), NodeV::Text(x)))),
        ),
        NodeV::Element { tag, attributes, children } => {
            if tag == "img"@ {
                match find_src(attributes) {
                    Option::Some(src) => Result::Ok(IRV::Img(src)),
                    Option::None => Result::Err(ErrV::MissingRequiredAttribute),
                }
            } else if tag == "p"@ {
                Result::Ok(IRV::Par(convert_textblock_spec(children)))
            } else if tag == "pre"@ {
                Result::Ok(IRV::Pre(pre_content(children)))
            } else if tag == "ol"@ {
                match convert_list_spec(ListType::Ordered, children) {
                    Result::Ok(l) => Result::Ok(IRV::List(l)),
                    Result::Err(e) => Result::Err(e),
                }
            } else if tag == "ul"@ {
                match convert_list_spec(ListType::Unordered, children) {
                    Result::Ok(l) => Result::Ok(IRV::List(l)),
                    Result::Err(e) => Result::Err(e),
                }
            } else if is_heading_tag(tag) {
                Result::Ok(
                    IRV::Header(heading_level(tag), trim_spec(flatten_children(children))),
                )
            } else if tag == "table"@ {
                match convert_table_spec(children) {
                    Result::Ok(t) => Result::Ok(IRV::Table(t)),
                    Result::Err(e) => Result::Err(e),
                }
            } else {
                Result::Ok(IRV::Pre(fallback_msg(tag)))
            }
        },
    }
}

pub open spec fn build_doc_acc(acc: Seq<IRV>, cs: Seq<NodeV>) -> Result<Seq<IRV>, ErrV>
    decreases cs.len(),
{
    if cs.len() == 0 {
        Result::Ok(acc)
    } else {
        match convert_node_spec(cs[0]) {
            Result::Err(e) => Result::Err(e),
            Result::Ok(x) => build_doc_acc(acc.push(x), cs.drop_first()),
        }
    }
}

/// The whole conversion of a parsed document's canonical children: both
/// normalization passes, then the builder on each surviving node.
pub open spec fn convert_document_spec(ns: Seq<NodeV>) -> Result<Seq<IRV>, ErrV> {
    build_doc_acc(Seq::empty(), crate::html_to_ir::optimize::normalize_spec(ns))
}

#[verifier::loop_isolation(false)]
fn flatten_node_chars(n: &Node) -> (r: Vec<char>)
    ensures
        r@ == flatten_text(n@),
    decreases n, 1int,
{
    match n {
        Node::Text(x) => crate::text::string_to_chars(x.as_str()),
        Node::Element { children, .. } => {
            let ghost cv = nodes_view(children.nodes@);
            let m = children.nodes.len();
            let mut acc: Vec<char> = Vec::new();
            let mut j: usize = 0;
            proof {
                assert(cv.skip(0) =~= cv);
                assert(acc@ + flatten_children(cv) =~= flatten_children(cv));
            }
            while j < m
                invariant
                    j <= m,
                    flatten_children(cv) == acc@ + flatten_children(cv.skip(j as int)),
                decreases m - j,
            {
                proof {
                    assert(decreases_to!(*n => n->Element_children));
                    assert(decreases_to!(n->Element_children => n->Element_children.nodes));
                    assert(decreases_to!(n->Element_children.nodes
                        => n->Element_children.nodes@));
                    assert(decreases_to!(n->Element_children.nodes@
                        => n->Element_children.nodes@[j as int]));
                }
                let piece = flatten_node_chars(&children.nodes[j]);
                proof {
                    assert(cv.skip(j as int)[0] == cv[j as int]);
                    assert(cv[j as int] == node_view(children.nodes@[j as int]));
                    assert(cv.skip(j as int).drop_first() =~= cv.skip(j + 1));
                    assert(acc@ + (flatten_text(cv[j as int]) + flatten_children(cv.skip(j + 1)))
                        =~= (acc@ + flatten_text(cv[j as int])) + flatten_children(
                        cv.skip(j + 1),
                    ));
                }
                crate::group_lines::push_all(&mut acc, &piece);
                j = j + 1;
            }
            proof {
                assert(cv.skip(m as int) =~= Seq::<NodeV>::empty());
                assert(acc@ + Seq::<char>::empty() =~= acc@);
            }
            acc
        },
    }
}

/// One node's plain text, flattened and reflowed, as a string.
fn reflowed_flat(children: &Nodes) -> (r: String)
    ensures
        r@ == group_lines_spec(flatten_children(children@)),
{
    let ghost cv = nodes_view(children.nodes@);
    let m = children.nodes.len();
    let mut acc: Vec<char> = Vec::new();
    let mut j: usize = 0;
    proof {
        assert(cv.skip(0) =~= cv);
        assert(acc@ + flatten_children(cv) =~= flatten_children(cv));
    }
    while j < m
        invariant
            j <= m,
            m == children.nodes@.len(),
            cv == nodes_view(children.nodes@),
            flatten_children(cv) == acc@ + flatten_children(cv.skip(j as int)),
        decreases m - j,
    {
        let piece = flatten_node_chars(&children.nodes[j]);
        proof {
            assert(cv.skip(j as int)[0] == cv[j as int]);
            assert(cv[j as int] == node_view(children.nodes@[j as int]));
            assert(cv.skip(j as int).drop_first() =~= cv.skip(j + 1));
            assert(acc@ + (flatten_text(cv[j as int]) + flatten_children(cv.skip(j + 1))) =~= (acc@
                + flatten_text(cv[j as int])) + flatten_children(cv.skip(j + 1)));
        }
        crate::group_lines::push_all(&mut acc, &piece);
        j = j + 1;
    }
    proof {
        assert(cv.skip(m as int) =~= Seq::<NodeV>::empty());
        assert(acc@ + Seq::<char>::empty() =~= acc@);
    }
    let flat = crate::text::chars_to_string(&acc);
    crate::group_lines::group_lines_file(flat.as_str())
}

#[verifier::loop_isolation(false)]
fn convert_run(n: &Node) -> (r: crate::ir::Text)
    ensures
        r@ == run_of_node(n@),
    decreases n, 5int,
{
    match n {
        Node::Text(x) => crate::ir::Text::Text(crate::group_lines::group_lines_file(x.as_str())),
        Node::Element { tag, children, .. } => {
            if str_eq(tag.as_str(), "sup") {
                proof {
                    assert(decreases_to!(*n => n->Element_children));
                }
                crate::ir::Text::Sup(convert_textblock(children))
            } else if str_eq(tag.as_str(), "sub") {
                proof {
                    assert(decreases_to!(*n => n->Element_children));
                }
                crate::ir::Text::Sub(convert_textblock(children))
            } else if str_eq(tag.as_str(), "code") {
                crate::ir::Text::Code(reflowed_flat(children))
            } else {
                crate::ir::Text::Text(reflowed_flat(children))
            }
        },
    }
}

/// The merged text block a sibling sequence becomes.
#[verifier::loop_isolation(false)]
fn convert_textblock(children: &Nodes) -> (r: crate::ir::TextBlock)
    ensures
        r@ == convert_textblock_spec(children@),
    decreases children, 6int,
{
    let ghost cv = nodes_view(children.nodes@);
    let m = children.nodes.len();
    let mut tb = crate::ir::TextBlock::new();
    let mut j: usize = 0;
    proof {
        assert(cv.skip(0) =~= cv);
    }
    while j < m
        invariant
            j <= m,
            ctb_acc(Seq::empty(), cv) == ctb_acc(tb@, cv.skip(j as int)),
        decreases m - j,
    {
        proof {
            assert(decreases_to!(*children => children.nodes));
            assert(decreases_to!(children.nodes => children.nodes@));
            assert(decreases_to!(children.nodes@ => children.nodes@[j as int]));
        }
        let run = convert_run(&children.nodes[j]);
        proof {
            assert(cv.skip(j as int)[0] == cv[j as int]);
            assert(cv[j as int] == node_view(children.nodes@[j as int]));
            assert(cv.skip(j as int).drop_first() =~= cv.skip(j + 1));
        }
        tb = tb.add(run);
        j = j + 1;
    }
    proof {
        assert(cv.skip(m as int) =~= Seq::<NodeV>::empty());
    }
    tb
}

#[verifier::loop_isolation(false)]
fn convert_content(n: &Node) -> (r: Result<crate::ir::ListContent, ConvertError>)
    ensures
        match r {
            Result::Ok(c) => content_of_node(n@) == Result::<ContentV, ErrV>::Ok(c@),
            Result::Err(e) => content_of_node(n@) == Result::<ContentV, ErrV>::Err(e@),
        },
    decreases n, 8int,
{
    match n {
        Node::Text(x) => {
            let tb = crate::ir::TextBlock::new().add(
                crate::ir::Text::Text(crate::group_lines::group_lines_file(x.as_str())),
            );
            proof {
                assert(tb@ =~= seq![RunV::Plain(group_lines_spec(x@))]);
            }
            Ok(crate::ir::ListContent::Text(tb))
        },
        Node::Element { tag, children, .. } => {
            if str_eq(tag.as_str(), "ol") {
                proof {
                    assert(decreases_to!(*n => n->Element_children));
                }
                match convert_list_items(children) {
                    Ok(items) => Ok(
                        crate::ir::ListContent::List(
                            crate::ir::List { style: ListType::Ordered, items },
                        ),
                    ),
                    Err(e) => Err(e),
                }
            } else if str_eq(tag.as_str(), "ul") {
                proof {
                    assert(decreases_to!(*n => n->Element_children));
                }
                match convert_list_items(children) {
                    Ok(items) => Ok(
                        crate::ir::ListContent::List(
                            crate::ir::List { style: ListType::Unordered, items },
                        ),
                    ),
                    Err(e) => Err(e),
                }
            } else if str_eq(tag.as_str(), "p") {
                proof {
                    assert(decreases_to!(*n => n->Element_children));
                }
                Ok(crate::ir::ListContent::Text(convert_textblock(children)))
            } else if str_eq(tag.as_str(), "sup") {
                proof {
                    assert(decreases_to!(*n => n->Element_children));
                }
                let tb = crate::ir::TextBlock::new().add(crate::ir::Text::Sup(convert_textblock(children)));
                proof {
                    assert(tb@ =~= seq![RunV::Sup(convert_textblock_spec(children@))]);
                }
                Ok(crate::ir::ListContent::Text(tb))
            } else if str_eq(tag.as_str(), "code") || str_eq(tag.as_str(), "pre") {
                let tb = crate::ir::TextBlock::new().add(
                    crate::ir::Text::Code(reflowed_flat(children)),
                );
                proof {
                    assert(tb@ =~= seq![
                        RunV::Code(group_lines_spec(flatten_children(children@))),
                    ]);
                }
                Ok(crate::ir::ListContent::Text(tb))
            } else {
                Err(ConvertError::UnrecognizedElement(tag.clone()))
            }
        },
    }
}

/// One list item from an `li` element's children.
#[verifier::loop_isolation(false)]
fn convert_list_item(cs: &Nodes) -> (r: Result<crate::ir::ListItem, ConvertError>)
    ensures
        match r {
            Result::Ok(item) => convert_list_item_spec(cs@) == Result::<Seq<ContentV>, ErrV>::Ok(
                item@,
            ),
            Result::Err(e) => convert_list_item_spec(cs@) == Result::<Seq<ContentV>, ErrV>::Err(
                e@,
            ),
        },
    decreases cs, 7int,
{
    let ghost cv = nodes_view(cs.nodes@);
    let m = cs.nodes.len();
    let mut content: Vec<crate::ir::ListContent> = Vec::new();
    let mut j: usize = 0;
    proof {
        assert(cv.skip(0) =~= cv);
        assert(contents_view(content@) =~= Seq::<ContentV>::empty());
    }
    while j < m
        invariant
            j <= m,
            item_contents_acc(Seq::empty(), cv) == item_contents_acc(
                contents_view(content@),
                cv.skip(j as int),
            ),
        decreases m - j,
    {
        proof {
            assert(decreases_to!(*cs => cs.nodes));
            assert(decreases_to!(cs.nodes => cs.nodes@));
            assert(decreases_to!(cs.nodes@ => cs.nodes@[j as int]));
            assert(cv.skip(j as int)[0] == cv[j as int]);
            assert(cv[j as int] == node_view(cs.nodes@[j as int]));
            assert(cv.skip(j as int).drop_first() =~= cv.skip(j + 1));
        }
        match convert_content(&cs.nodes[j]) {
            Err(e) => {
                return Err(e);
            },
            Ok(c) => {
                proof {
                    assert(contents_view(content@.push(c)) =~= contents_view(content@).push(c@));
                }
                content.push(c);
            },
        }
        j = j + 1;
    }
    proof {
        assert(cv.skip(m as int) =~= Seq::<NodeV>::empty());
    }
    Ok(crate::ir::ListItem { content })
}

/// The items of a list: text between items is passed over, each `li`
/// becomes one item, any other tag fails the document.
#[verifier::loop_isolation(false)]
fn convert_list_items(cs: &Nodes) -> (r: Result<Vec<crate::ir::ListItem>, ConvertError>)
    ensures
        match r {
            Result::Ok(items) => list_items_acc(Seq::empty(), cs@) == Result::<
                Seq<Seq<ContentV>>,
                ErrV,
            >::Ok(items_view(items@)),
            Result::Err(e) => list_items_acc(Seq::empty(), cs@) == Result::<
                Seq<Seq<ContentV>>,
                ErrV,
            >::Err(e@),
        },
    decreases cs, 9int,
{
    let ghost cv = nodes_view(cs.nodes@);
    let m = cs.nodes.len();
    let mut items: Vec<crate::ir::ListItem> = Vec::new();
    let mut j: usize = 0;
    proof {
        assert(cv.skip(0) =~= cv);
        assert(items_view(items@) =~= Seq::<Seq<ContentV>>::empty());
    }
    while j < m
        invariant
            j <= m,
            list_items_acc(Seq::empty(), cv) == list_items_acc(
                items_view(items@),
                cv.skip(j as int),
            ),
        decreases m - j,
    {
        proof {
            assert(cv.skip(j as int)[0] == cv[j as int]);
            assert(cv[j as int] == node_view(cs.nodes@[j as int]));
            assert(cv.skip(j as int).drop_first() =~= cv.skip(j + 1));
        }
        match &cs.nodes[j] {
            Node::Text(_) => {},
            Node::Element { tag, children, .. } => {
                if str_eq(tag.as_str(), "li") {
                    proof {
                        assert(decreases_to!(*cs => cs.nodes));
                        assert(decreases_to!(cs.nodes => cs.nodes@));
                        assert(decreases_to!(cs.nodes@ => cs.nodes@[j as int]));
                        assert(decreases_to!(cs.nodes@[j as int]
                            => cs.nodes@[j as int]->Element_children));
                    }
                    match convert_list_item(children) {
                        Err(e) => {
                            return Err(e);
                        },
                        Ok(item) => {
                            proof {
                                crate::ir::lemma_items_view_push(items@, item);
                            }
                            items.push(item);
                        },
                    }
                } else {
                    return Err(ConvertError::UnrecognizedElement(tag.clone()));
                }
            },
        }
        j = j + 1;
    }
    proof {
        assert(cv.skip(m as int) =~= Seq::<NodeV>::empty());
    }
    Ok(items)
}

/// The cells of one table row.
#[verifier::loop_isolation(false)]
fn convert_row(cs: &Nodes) -> (r: Result<crate::ir::TableRow, ConvertError>)
    ensures
        match r {
            Result::Ok(row) => row_cells_acc(Seq::empty(), cs@) == Result::<
                Seq<Seq<RunV>>,
                ErrV,
            >::Ok(row@),
            Result::Err(e) => row_cells_acc(Seq::empty(), cs@) == Result::<
                Seq<Seq<RunV>>,
                ErrV,
            >::Err(e@),
        },
{
    let ghost cv = nodes_view(cs.nodes@);
    let m = cs.nodes.len();
    let mut columns: Vec<crate::ir::TableCell> = Vec::new();
    let mut j: usize = 0;
    proof {
        assert(cv.skip(0) =~= cv);
        assert(crate::ir::cells_view(columns@) =~= Seq::<Seq<RunV>>::empty());
    }
    while j < m
        invariant
            j <= m,
            row_cells_acc(Seq::empty(), cv) == row_cells_acc(
                crate::ir::cells_view(columns@),
                cv.skip(j as int),
            ),
        decreases m - j,
    {
        proof {
            assert(cv.skip(j as int)[0] == cv[j as int]);
            assert(cv[j as int] == node_view(cs.nodes@[j as int]));
            assert(cv.skip(j as int).drop_first() =~= cv.skip(j + 1));
        }
        match &cs.nodes[j] {
            Node::Text(_) => {},
            Node::Element { tag, children, .. } => {
                if str_eq(tag.as_str(), "td") || str_eq(tag.as_str(), "th") {
                    let cell = crate::ir::TableCell::new(convert_textblock(children));
                    proof {
                        crate::ir::lemma_cells_view_push(columns@, cell);
                    }
                    columns.push(cell);
                } else {
                    return Err(ConvertError::UnrecognizedElement(tag.clone()));
                }
            },
        }
        j = j + 1;
    }
    proof {
        assert(cv.skip(m as int) =~= Seq::<NodeV>::empty());
    }
    Ok(crate::ir::TableRow { columns })
}

/// The rows under one table row group.
#[verifier::loop_isolation(false)]
fn convert_row_group(cs: &Nodes) -> (r: Result<Vec<crate::ir::TableRow>, ConvertError>)
    ensures
        match r {
            Result::Ok(rows) => group_rows_acc(Seq::empty(), cs@) == Result::<
                Seq<Seq<Seq<RunV>>>,
                ErrV,
            >::Ok(crate::ir::rows_view(rows@)),
            Result::Err(e) => group_rows_acc(Seq::empty(), cs@) == Result::<
                Seq<Seq<Seq<RunV>>>,
                ErrV,
            >::Err(e@),
        },
{
    let ghost cv = nodes_view(cs.nodes@);
    let m = cs.nodes.len();
    let mut rows: Vec<crate::ir::TableRow> = Vec::new();
    let mut j: usize = 0;
    proof {
        assert(cv.skip(0) =~= cv);
        assert(crate::ir::rows_view(rows@) =~= Seq::<Seq<Seq<RunV>>>::empty());
    }
    while j < m
        invariant
            j <= m,
            group_rows_acc(Seq::empty(), cv) == group_rows_acc(
                crate::ir::rows_view(rows@),
                cv.skip(j as int),
            ),
        decreases m - j,
    {
        proof {
            assert(cv.skip(j as int)[0] == cv[j as int]);
            assert(cv[j as int] == node_view(cs.nodes@[j as int]));
            assert(cv.skip(j as int).drop_first() =~= cv.skip(j + 1));
        }
        match &cs.nodes[j] {
            Node::Text(_) => {},
            Node::Element { tag, children, .. } => {
                if str_eq(tag.as_str(), "tr") {
                    match convert_row(children) {
                        Err(e) => {
                            return Err(e);
                        },
                        Ok(row) => {
                            proof {
                                crate::ir::lemma_rows_view_push(rows@, row);
                            }
                            rows.push(row);
                        },
                    }
                } else {
                    return Err(ConvertError::UnrecognizedElement(tag.clone()));
                }
            },
        }
        j = j + 1;
    }
    proof {
        assert(cv.skip(m as int) =~= Seq::<NodeV>::empty());
    }
    Ok(rows)
}

/// A whole table from a `table` element's children; exactly `table_acc`,
/// so any row beyond the first under a head or foot group is discarded.
#[verifier::loop_isolation(false)]
fn convert_table(cs: &Nodes) -> (r: Result<crate::ir::Table, ConvertError>)
    ensures
        match r {
            Result::Ok(t) => convert_table_spec(cs@) == Result::<TableV, ErrV>::Ok(t@),
            Result::Err(e) => convert_table_spec(cs@) == Result::<TableV, ErrV>::Err(e@),
        },
{
    let ghost cv = nodes_view(cs.nodes@);
    let m = cs.nodes.len();
    let mut header: Option<crate::ir::TableRow> = None;
    let mut body: Vec<crate::ir::TableRow> = Vec::new();
    let mut footer: Option<crate::ir::TableRow> = None;
    let mut j: usize = 0;
    proof {
        assert(cv.skip(0) =~= cv);
        assert(crate::ir::rows_view(body@) =~= Seq::<Seq<Seq<RunV>>>::empty());
    }
    while j < m
        invariant
            j <= m,
            convert_table_spec(cv) == table_acc(
                crate::ir::opt_row_view(header),
                crate::ir::rows_view(body@),
                crate::ir::opt_row_view(footer),
                cv.skip(j as int),
            ),
        decreases m - j,
    {
        proof {
            assert(cv.skip(j as int)[0] == cv[j as int]);
            assert(cv[j as int] == node_view(cs.nodes@[j as int]));
            assert(cv.skip(j as int).drop_first() =~= cv.skip(j + 1));
        }
        match &cs.nodes[j] {
            Node::Text(_) => {},
            Node::Element { tag, children, .. } => {
                if str_eq(tag.as_str(), "thead") {
                    match convert_row_group(children) {
                        Err(e) => {
                            return Err(e);
                        },
                        Ok(mut rows) => {
                            let none_yet = match &header {
                                Some(_) => false,
                                None => true,
                            };
                            if none_yet && rows.len() > 0 {
                                proof {
                                    assert(crate::ir::rows_view(rows@)[0]
                                        == crate::ir::row_view(rows@[0]));
                                }
                                let first = rows.remove(0);
                                header = Some(first);
                            }
                        },
                    }
                } else if str_eq(tag.as_str(), "tbody") {
                    match convert_row_group(children) {
                        Err(e) => {
                            return Err(e);
                        },
                        Ok(mut rows) => {
                            let ghost added = crate::ir::rows_view(rows@);
                            let ghost before = crate::ir::rows_view(body@);
                            let ghost rowsg = rows@;
                            let mut k: usize = 0;
                            let rn = rows.len();
                            proof {
                                assert(rowsg.skip(0) =~= rowsg);
                                assert(before + crate::ir::rows_view(rowsg.skip(0)) =~= before
                                    + added);
                            }
                            while k < rn
                                invariant
                                    k <= rn,
                                    rows@ == rowsg.skip(k as int),
                                    crate::ir::rows_view(body@) + crate::ir::rows_view(
                                        rowsg.skip(k as int),
                                    ) == before + added,
                                decreases rn - k,
                            {
                                proof {
                                    assert(crate::ir::rows_view(rowsg.skip(k as int))[0]
                                        == crate::ir::row_view(rowsg.skip(k as int)[0]));
                                    assert(crate::ir::rows_view(rowsg.skip(k as int)).drop_first()
                                        =~= crate::ir::rows_view(rowsg.skip(k + 1)));
                                    assert(rowsg.skip(k as int).remove(0) =~= rowsg.skip(k + 1));
                                }
                                let row = rows.remove(0);
                                proof {
                                    crate::ir::lemma_rows_view_push(body@, row);
                                    assert(crate::ir::rows_view(body@).push(
                                        crate::ir::row_view(row),
                                    ) + crate::ir::rows_view(rowsg.skip(k + 1)) =~= crate::ir::rows_view(
                                        body@,
                                    ) + crate::ir::rows_view(rowsg.skip(k as int)));
                                }
                                body.push(row);
                                k = k + 1;
                            }
                            proof {
                                assert(rowsg.skip(rn as int) =~= Seq::<
                                    crate::ir::TableRow,
                                >::empty());
                                assert(crate::ir::rows_view(body@) + Seq::<
                                    Seq<Seq<RunV>>,
                                >::empty() =~= crate::ir::rows_view(body@));
                            }
                        },
                    }
                } else if str_eq(tag.as_str(), "tfoot") {
                    match convert_row_group(children) {
                        Err(e) => {
                            return Err(e);
                        },
                        Ok(mut rows) => {
                            let none_yet = match &footer {
                                Some(_) => false,
                                None => true,
                            };
                            if none_yet && rows.len() > 0 {
                                proof {
                                    assert(crate::ir::rows_view(rows@)[0]
                                        == crate::ir::row_view(rows@[0]));
                                }
                                let first = rows.remove(0);
                                footer = Some(first);
                            }
                        },
                    }
                } else if str_eq(tag.as_str(), "tr") {
                    match convert_row(children) {
                        Err(e) => {
                            return Err(e);
                        },
                        Ok(row) => {
                            proof {
                                crate::ir::lemma_rows_view_push(body@, row);
                            }
                            body.push(row);
                        },
                    }
                } else {
                    return Err(ConvertError::UnrecognizedElement(tag.clone()));
                }
            },
        }
        j = j + 1;
    }
    proof {
        assert(cv.skip(m as int) =~= Seq::<NodeV>::empty());
    }
    Ok(crate::ir::Table { header, body, footer })
}

/// The first source attribute's value.
#[verifier::loop_isolation(false)]
fn find_src_attr(attrs: &Vec<(String, String)>) -> (r: Option<String>)
    ensures
        match r {
            Option::Some(s) => find_src(crate::html_to_ir::html::attrs_view(attrs@))
                == Option::Some(s@),
            Option::None => find_src(crate::html_to_ir::html::attrs_view(attrs@)) is None,
        },
{
    let ghost av = crate::html_to_ir::html::attrs_view(attrs@);
    let m = attrs.len();
    let mut j: usize = 0;
    proof {
        assert(av.skip(0) =~= av);
    }
    while j < m
        invariant
            j <= m,
            find_src(av) == find_src(av.skip(j as int)),
        decreases m - j,
    {
        proof {
            assert(av.skip(j as int)[0] == av[j as int]);
            assert(av[j as int] == (attrs@[j as int].0@, attrs@[j as int].1@));
            assert(av.skip(j as int).drop_first() =~= av.skip(j + 1));
        }
        if str_eq(attrs[j].0.as_str(), "src") {
            return Some(attrs[j].1.clone());
        }
        j = j + 1;
    }
    proof {
        assert(av.skip(m as int) =~= Seq::<(Seq<char>, Seq<char>)>::empty());
    }
    None
}

/// The document node one normalized top-level node becomes.
#[verifier::loop_isolation(false)]
pub fn convert_node(n: &Node) -> (r: Result<crate::ir::IR, ConvertError>)
    ensures
        match r {
            Result::Ok(x) => convert_node_spec(n@) == Result::<IRV, ErrV>::Ok(x@),
            Result::Err(e) => convert_node_spec(n@) == Result::<IRV, ErrV>::Err(e@),
        },
{
    match n {
        Node::Text(x) => {
            let wrapped = Nodes::new().add(Node::Text(x.clone()));
            let tb = convert_textblock(&wrapped);
            Ok(crate::ir::IR::Par(tb))
        },
        Node::Element { tag, attributes, children } => {
            if str_eq(tag.as_str(), "img") {
                match find_src_attr(attributes) {
                    Some(src) => Ok(crate::ir::IR::img(src.as_str())),
                    None => Err(ConvertError::MissingRequiredAttribute),
                }
            } else if str_eq(tag.as_str(), "p") {
                Ok(crate::ir::IR::Par(convert_textblock(children)))
            } else if str_eq(tag.as_str(), "pre") {
                if children.nodes.len() == 1 {
                    match &children.nodes[0] {
                        Node::Text(body) => {
                            proof {
                                assert(children@[0] == node_view(children.nodes@[0]));
                            }
                            Ok(crate::ir::IR::pre(body.as_str()))
                        },
                        _ => {
                            proof {
                                assert(children@[0] == node_view(children.nodes@[0]));
                                reveal_strlit("");
                                assert(""@ =~= Seq::<char>::empty());
                            }
                            Ok(crate::ir::IR::pre(""))
                        },
                    }
                } else {
                    proof {
                        reveal_strlit("");
                        assert(""@ =~= Seq::<char>::empty());
                    }
                    Ok(crate::ir::IR::pre(""))
                }
            } else if str_eq(tag.as_str(), "ol") {
                match convert_list_items(children) {
                    Ok(items) => Ok(
                        crate::ir::IR::List(crate::ir::List { style: ListType::Ordered, items }),
                    ),
                    Err(e) => Err(e),
                }
            } else if str_eq(tag.as_str(), "ul") {
                match convert_list_items(children) {
                    Ok(items) => Ok(
                        crate::ir::IR::List(crate::ir::List { style: ListType::Unordered, items }),
                    ),
                    Err(e) => Err(e),
                }
            } else if str_eq(tag.as_str(), "h1") || str_eq(tag.as_str(), "h2") || str_eq(
                tag.as_str(),
                "h3",
            ) || str_eq(tag.as_str(), "h4") || str_eq(tag.as_str(), "h5") || str_eq(
                tag.as_str(),
                "h6",
            ) {
                let level: usize = if str_eq(tag.as_str(), "h1") {
                    1
                } else if str_eq(tag.as_str(), "h2") {
                    2
                } else if str_eq(tag.as_str(), "h3") {
                    3
                } else if str_eq(tag.as_str(), "h4") {
                    4
                } else if str_eq(tag.as_str(), "h5") {
                    5
                } else {
                    6
                };
                let flat = flatten_all(children);
                let trimmed = crate::text::trim_chars(&flat);
                let text = crate::text::chars_to_string(&trimmed);
                Ok(crate::ir::IR::header(level, text.as_str()))
            } else if str_eq(tag.as_str(), "table") {
                match convert_table(children) {
                    Ok(t) => Ok(crate::ir::IR::Table(t)),
                    Err(e) => Err(e),
                }
            } else {
                let msg = fallback_text(tag);
                Ok(crate::ir::IR::pre(msg.as_str()))
            }
        },
    }
}

fn flatten_all(children: &Nodes) -> (r: Vec<char>)
    ensures
        r@ == flatten_children(children@),
{
    let ghost cv = nodes_view(children.nodes@);
    let m = children.nodes.len();
    let mut acc: Vec<char> = Vec::new();
    let mut j: usize = 0;
    proof {
        assert(cv.skip(0) =~= cv);
        assert(acc@ + flatten_children(cv) =~= flatten_children(cv));
    }
    while j < m
        invariant
            j <= m,
            m == children.nodes@.len(),
            cv == nodes_view(children.nodes@),
            flatten_children(cv) == acc@ + flatten_children(cv.skip(j as int)),
        decreases m - j,
    {
        let piece = flatten_node_chars(&children.nodes[j]);
        proof {
            assert(cv.skip(j as int)[0] == cv[j as int]);
            assert(cv[j as int] == node_view(children.nodes@[j as int]));
            assert(cv.skip(j as int).drop_first() =~= cv.skip(j + 1));
            assert(acc@ + (flatten_text(cv[j as int]) + flatten_children(cv.skip(j + 1))) =~= (acc@
                + flatten_text(cv[j as int])) + flatten_children(cv.skip(j + 1)));
        }
        crate::group_lines::push_all(&mut acc, &piece);
        j = j + 1;
    }
    proof {
        assert(cv.skip(m as int) =~= Seq::<NodeV>::empty());
        assert(acc@ + Seq::<char>::empty() =~= acc@);
    }
    acc
}

fn fallback_text(tag: &String) -> (r: String)
    ensures
        r@ == fallback_msg(tag@),
{
    let head: String = "Could not handle `".to_owned();
    let mid = head.concat(tag.as_str());
    mid.concat("` element")
}

impl crate::html_to_ir::html::Document {
    /// Normalizes this document's canonical children and builds the typed
    /// document; a fatal condition fails the whole document.
    #[verifier::loop_isolation(false)]
    pub fn convert(self) -> (r: Result<crate::ir::Document, ConvertError>)
        ensures
            match r {
                Result::Ok(d) => convert_document_spec(self@) == Result::<Seq<IRV>, ErrV>::Ok(d@),
                Result::Err(e) => convert_document_spec(self@) == Result::<Seq<IRV>, ErrV>::Err(
                    e@,
                ),
            },
    {
        let pass1 = crate::html_to_ir::optimize::remove_tags_all(&self.children);
        let pass2 = crate::html_to_ir::optimize::handle_containers_all(&pass1);
        let ghost cv = nodes_view(pass2.nodes@);
        let m = pass2.nodes.len();
        let mut out = crate::ir::Document::new();
        let mut j: usize = 0;
        proof {
            assert(cv.skip(0) =~= cv);
            assert(out@ =~= Seq::<IRV>::empty());
        }
        while j < m
            invariant
                j <= m,
                build_doc_acc(Seq::empty(), cv) == build_doc_acc(out@, cv.skip(j as int)),
            decreases m - j,
        {
            proof {
                assert(cv.skip(j as int)[0] == cv[j as int]);
                assert(cv[j as int] == node_view(pass2.nodes@[j as int]));
                assert(cv.skip(j as int).drop_first() =~= cv.skip(j + 1));
            }
            match convert_node(&pass2.nodes[j]) {
                Err(e) => {
                    return Err(e);
                },
                Ok(x) => {
                    out = out.add(x);
                },
            }
            j = j + 1;
        }
        proof {
            assert(cv.skip(m as int) =~= Seq::<NodeV>::empty());
        }
        Ok(out)
    }
}

} // verus!
