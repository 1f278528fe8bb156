use anki_convert::html_to_ir::convert::ConvertError;
use anki_convert::html_to_ir::convert_file;
use anki_convert::html_to_ir::html::Node;
use anki_convert::html_to_ir::html::Nodes;
use anki_convert::html_to_ir::optnode::OptNode;
use anki_convert::html_to_ir::optnode::Tag;
use anki_convert::ir::Document;
use anki_convert::ir::IR;
use anki_convert::ir::List;
use anki_convert::ir::ListContent;
use anki_convert::ir::ListItem;
use anki_convert::ir::ListType;
use anki_convert::ir::TextBlock;
use anki_convert::ir_to_anki::convert;

fn body(content: &str) -> String {
    format!("<html><body>{}</body></html>", content)
}

#[test]
fn html_nothing() {}

#[test]
fn optnodes_nothing() {}

#[test]
fn mod_empty() {
    let content = "";
    let result = Document::new();
    assert_eq!(convert_file(content), result);
}

#[test]
fn empty_body() {
    let content = &body("");
    let result = Document::new();
    assert_eq!(convert_file(content), result);
}

#[test]
fn only_head() {
    let content = "<html><head></head></html>";
    let result = Document::new();
    assert_eq!(convert_file(content), result);
}

#[test]
fn head_with_script() {
    let content = "<html><head><script></script></head></html>";
    let result = Document::new();
    assert_eq!(convert_file(content), result);
}

#[test]
fn head_with_style() {
    let content = "<html><head><style></style></head></html>";
    let result = Document::new();
    assert_eq!(convert_file(content), result);
}

#[test]
fn mod_par() {
    let content = &body("<p>Text</p>");
    let text = TextBlock::from("Text");

    let result = Document::new().add(IR::from(text));
    assert_eq!(convert_file(content), result);
}

#[test]
fn img() {
    let content = &body("<img src=\"image.png\" />");
    let result = Document::new().add(IR::img("image.png"));
    assert_eq!(convert_file(content), result);
}

#[test]
fn pre() {
    let content = &body("<pre><span>x</span> = <span>1</span>\n\nx</pre>");
    let result = Document::new().add(IR::pre("x = 1\n\nx"));
    assert_eq!(convert_file(content), result);
}

#[test]
fn ol() {
    let content = &body("<ol><li>a</li><li>b</li></ol>");
    let ul = List::new(ListType::Ordered)
        .add(ListItem::new().add(ListContent::from(TextBlock::from("a"))).build())
        .add(ListItem::new().add(ListContent::from(TextBlock::from("b"))).build())
        .build();
    let result = Document::new().add(IR::from(ul));
    assert_eq!(convert_file(content), result);
}

#[test]
fn ul() {
    let content = &body("<ul><li>a</li><li>b</li></ul>");
    let ul = List::new(ListType::Unordered)
        .add(ListItem::new().add(ListContent::from(TextBlock::from("a"))).build())
        .add(ListItem::new().add(ListContent::from(TextBlock::from("b"))).build())
        .build();
    let result = Document::new().add(IR::from(ul));
    assert_eq!(convert_file(content), result);
}

#[test]
fn ol_ol() {
    let content = &body("<ol><li>a<ol><li>aa</li></ol></li></ol>");
    let inner_ul = List::new(ListType::Ordered)
        .add(ListItem::new().add(ListContent::from("aa")).build())
        .build();
    let outer_ul = List::new(ListType::Ordered)
        .add(ListItem::new().add(ListContent::from("a")).add(ListContent::from(inner_ul)).build())
        .build();
    let result = Document::new().add(IR::from(outer_ul));
    assert_eq!(convert_file(content), result);
}

#[test]
fn ol_ul() {
    let content = &body("<ol><li>a<ul><li>aa</li></ul></li></ol>");
    let inner_ul = List::new(ListType::Unordered)
        .add(ListItem::new().add(ListContent::from("aa")).build())
        .build();
    let outer_ul = List::new(ListType::Ordered)
        .add(ListItem::new().add(ListContent::from("a")).add(ListContent::from(inner_ul)).build())
        .build();
    let result = Document::new().add(IR::from(outer_ul));
    assert_eq!(convert_file(content), result);
}

#[test]
fn ul_ol() {
    let content = &body("<ul><li>a<ol><li>aa</li></ol></li></ul>");
    let inner_ul = List::new(ListType::Ordered)
        .add(ListItem::new().add(ListContent::from("aa")).build())
        .build();
    let outer_ul = List::new(ListType::Unordered)
        .add(ListItem::new().add(ListContent::from("a")).add(ListContent::from(inner_ul)).build())
        .build();
    let result = Document::new().add(IR::from(outer_ul));
    assert_eq!(convert_file(content), result);
}

#[test]
fn ul_ul() {
    let content = &body("<ul><li>a<ul><li>aa</li></ul></li></ul>");
    let inner_ul = List::new(ListType::Unordered)
        .add(ListItem::new().add(ListContent::from("aa")).build())
        .build();
    let outer_ul = List::new(ListType::Unordered)
        .add(ListItem::new().add(ListContent::from("a")).add(ListContent::from(inner_ul)).build())
        .build();
    let result = Document::new().add(IR::from(outer_ul));
    assert_eq!(convert_file(content), result);
}

#[test]
fn round_trip_soft_wrapped_paragraph() {
    let content = &body("<p>Test\ntest</p>");
    let doc = convert_file(content);
    assert_eq!(doc, Document::new().add(IR::from(TextBlock::from("Test test"))));
    assert_eq!(convert(doc), "Test test".to_string());
}

#[test]
fn inline_anchor_unwraps_to_one_run() {
    let content = &body("<p>Test <a>a</a> to b</p>");
    let doc = convert_file(content);
    assert_eq!(doc, Document::new().add(IR::from(TextBlock::from("Test a to b"))));
    assert_eq!(convert(doc), "Test a to b".to_string());
}

#[test]
fn dropped_head_renders_nothing() {
    let content = "<html><head><script>var x = 1;</script></head><body></body></html>";
    let doc = convert_file(content);
    assert_eq!(doc, Document::new());
    assert_eq!(convert(doc), "".to_string());
}

#[test]
fn definition_list_becomes_unordered_list() {
    let content = &body("<dl><dt>a</dt><dd>b</dd></dl>");
    let ul = List::new(ListType::Unordered)
        .add(ListItem::new().add(ListContent::from("a")).build())
        .add(ListItem::new().add(ListContent::from("b")).build())
        .build();
    let result = Document::new().add(IR::from(ul));
    assert_eq!(convert_file(content), result);
}

#[test]
fn heading_text_is_kept() {
    let content = &body("<h2>A <b>bold</b> title</h2>");
    let doc = convert_file(content);
    assert_eq!(convert(doc), "A bold title".to_string());
}

#[test]
fn table_with_head_and_body() {
    let content = &body(
        "<table><thead><tr><th>a</th><th>b</th></tr></thead>\
         <tbody><tr><td>c</td><td>d</td></tr></tbody></table>",
    );
    let doc = convert_file(content);
    assert_eq!(convert(doc), "a | b\n-----\nc | d".to_string());
}

#[test]
fn unknown_top_level_tag_leaves_a_marker() {
    let content = &body("<blockquote>quoted</blockquote>");
    let doc = convert_file(content);
    assert_eq!(convert(doc), "```Could not handle `blockquote` element```".to_string());
}

#[test]
fn try_convert_surfaces_missing_src() {
    let content = &body("<img />");
    assert_eq!(
        anki_convert::html_to_ir::try_convert_file(content),
        Err(ConvertError::MissingRequiredAttribute)
    );
}

#[test]
fn convert_file_collapses_failure_to_empty() {
    let content = &body("<img />");
    assert_eq!(convert_file(content), Document::new());
}

#[test]
fn extra_head_group_rows_are_dropped() {
    let content = &body(
        "<table><thead><tr><th>a</th></tr><tr><th>b</th></tr></thead>\
         <tbody><tr><td>c</td></tr></tbody></table>",
    );
    let doc = convert_file(content);
    assert_eq!(convert(doc), "a\n-----\nc".to_string());
}

#[test]
fn optnode_classification() {
    let ol = Node::Element {
        tag: "ol".to_string(),
        attributes: Vec::new(),
        children: Nodes::new(),
    };
    assert!(matches!(OptNode::from(ol), OptNode::Node(Tag::OL, _)));
    assert!(matches!(
        OptNode::from(Node::Text("x".to_string())),
        OptNode::Text(_)
    ));
    let unknown = Node::Element {
        tag: "p".to_string(),
        attributes: Vec::new(),
        children: Nodes::new(),
    };
    assert!(matches!(OptNode::from(unknown), OptNode::Nothing));
}

#[test]
fn img_without_src_fails_conversion() {
    let item = Node::Element {
        tag: "img".to_string(),
        attributes: Vec::new(),
        children: Nodes::new(),
    };
    let doc = anki_convert::html_to_ir::html::Document::new().add(item);
    assert_eq!(doc.convert(), Err(ConvertError::MissingRequiredAttribute));
}

#[test]
fn stray_tag_in_list_fails_conversion() {
    let inner = Node::Element {
        tag: "table".to_string(),
        attributes: Vec::new(),
        children: Nodes::new(),
    };
    let li = Node::Element {
        tag: "li".to_string(),
        attributes: Vec::new(),
        children: Nodes::new().add(inner),
    };
    let list = Node::Element {
        tag: "ul".to_string(),
        attributes: Vec::new(),
        children: Nodes::new().add(li),
    };
    let doc = anki_convert::html_to_ir::html::Document::new().add(list);
    assert_eq!(doc.convert(), Err(ConvertError::UnrecognizedElement("table".to_string())));
}

#[test]
fn non_list_tag_between_items_fails_conversion() {
    let stray = Node::Element {
        tag: "p".to_string(),
        attributes: Vec::new(),
        children: Nodes::new(),
    };
    let list = Node::Element {
        tag: "ol".to_string(),
        attributes: Vec::new(),
        children: Nodes::new().add(stray),
    };
    let doc = anki_convert::html_to_ir::html::Document::new().add(list);
    assert_eq!(doc.convert(), Err(ConvertError::UnrecognizedElement("p".to_string())));
}
