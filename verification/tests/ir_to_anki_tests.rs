use anki_convert::ir::Document;
use anki_convert::ir::IR;
use anki_convert::ir::List;
use anki_convert::ir::ListContent;
use anki_convert::ir::ListItem;
use anki_convert::ir::ListType;
use anki_convert::ir::Table;
use anki_convert::ir::TableCell;
use anki_convert::ir::TableRow;
use anki_convert::ir::Text;
use anki_convert::ir::TextBlock;
use anki_convert::ir_to_anki::convert;
use anki_convert::ir_to_anki::ToAnki;
use anki_convert::ir_to_anki::ToAnkiWithDepth;

#[test]
fn ir_to_anki_empty() {
    let doc = Document::new();
    let result = "".to_string();
    assert_eq!(convert(doc), result);
}

#[test]
fn ir_to_anki_par() {
    let par = IR::from(TextBlock::from("a"));
    let result = "a\n\n".to_string();
    assert_eq!(par.to_anki(), result);
}

#[test]
fn ordered_list_single_item() {
    let text = TextBlock::from("a");
    let item = ListItem::item(text);
    let list = List::new(ListType::Ordered).add(item).build();
    let list = IR::from(list);
    let result = "1) a\n\n".to_string();
    assert_eq!(list.to_anki(), result);
}

#[test]
fn ordered_list_multiple_item() {
    let text = TextBlock::from("a");
    let item = ListItem::new().add(ListContent::from(text)).build();
    let list = List::new(ListType::Ordered).add(item.clone()).add(item.clone()).build();
    let list = IR::from(list);
    let result = "1) a\n2) a\n\n".to_string();
    assert_eq!(list.to_anki(), result);
}

#[test]
fn unordered_list_single_item() {
    let text = TextBlock::from("a");
    let item = ListItem::item(text);
    let list = List::new(ListType::Unordered).add(item).build();
    let list = IR::from(list);
    let result = "-- a\n\n".to_string();
    assert_eq!(list.to_anki(), result);
}

#[test]
fn unordered_list_multiple_item() {
    let text = TextBlock::from("a");
    let item = ListItem::new().add(ListContent::from(text)).build();
    let list = List::new(ListType::Unordered).add(item.clone()).add(item.clone()).build();
    let list = IR::from(list);
    let result = "-- a\n-- a\n\n".to_string();
    assert_eq!(list.to_anki(), result);
}

#[test]
fn ordered_list_nested_ordered_list() {
    let text = TextBlock::from("child");
    let nested_list = List::new(ListType::Ordered)
        .add(ListItem::new().add(ListContent::from(text)).build())
        .build();

    let text = TextBlock::from("parent");
    let list = IR::from(
        List::new(ListType::Ordered)
            .add(
                ListItem::new()
                    .add(ListContent::from(text))
                    .add(ListContent::from(nested_list))
                    .build(),
            )
            .build(),
    );
    let result = "1) parent\n--1) child\n\n".to_string();
    assert_eq!(list.to_anki(), result);
}

#[test]
fn ordered_list_nested_unordered_list() {
    let text = TextBlock::from("child");
    let nested_list = List::new(ListType::Unordered)
        .add(ListItem::new().add(ListContent::from(text)).build())
        .build();

    let text = TextBlock::from("parent");
    let list = IR::from(
        List::new(ListType::Ordered)
            .add(
                ListItem::new()
                    .add(ListContent::from(text))
                    .add(ListContent::from(nested_list))
                    .build(),
            )
            .build(),
    );
    let result = "1) parent\n---- child\n\n".to_string();
    assert_eq!(list.to_anki(), result);
}

#[test]
fn unordered_list_nested_ordered_list() {
    let text = TextBlock::from("child");
    let nested_list = List::new(ListType::Ordered)
        .add(ListItem::new().add(ListContent::from(text)).build())
        .build();

    let text = TextBlock::from("parent");
    let list = IR::from(
        List::new(ListType::Unordered)
            .add(
                ListItem::new()
                    .add(ListContent::from(text))
                    .add(ListContent::from(nested_list))
                    .build(),
            )
            .build(),
    );
    let result = "-- parent\n--1) child\n\n".to_string();
    assert_eq!(list.to_anki(), result);
}

#[test]
fn unordered_list_nested_unordered_list() {
    let text = TextBlock::from("child");
    let nested_list = List::new(ListType::Unordered)
        .add(ListItem::new().add(ListContent::from(text)).build())
        .build();

    let text = TextBlock::from("parent");
    let list = IR::from(
        List::new(ListType::Unordered)
            .add(
                ListItem::new()
                    .add(ListContent::from(text))
                    .add(ListContent::from(nested_list))
                    .build(),
            )
            .build(),
    );
    let result = "-- parent\n---- child\n\n".to_string();
    assert_eq!(list.to_anki(), result);
}

#[test]
fn table() {
    let cell_a = TableCell::new(TextBlock::from("a"));
    let cell_b = TableCell::new(TextBlock::from("b"));

    let row = TableRow::new().add(cell_a).add(cell_b).build();

    let header = row.clone();
    let footer = row.clone();
    let row = row.clone();

    let table = IR::from(Table::new().set_header(header).add(row).set_footer(footer).build());

    let result = "a | b\n-----\na | b\n-----\na | b\n\n".to_string();
    assert_eq!(table.to_anki(), result);
}

fn two_cell_row() -> TableRow {
    let cell_a = TableCell::new(TextBlock::from("a"));
    let cell_b = TableCell::new(TextBlock::from("b"));
    TableRow::new().add(cell_a).add(cell_b).build()
}

#[test]
fn table_header_only() {
    let table = Table::new().set_header(two_cell_row()).add(two_cell_row()).add(two_cell_row());
    assert_eq!(table.to_anki(), "a | b\n-----\na | b\na | b".to_string());
}

#[test]
fn table_footer_only() {
    let table = Table::new().add(two_cell_row()).add(two_cell_row()).set_footer(two_cell_row());
    assert_eq!(table.to_anki(), "a | b\na | b\n-----\na | b".to_string());
}

#[test]
fn table_bare_body() {
    let table = Table::new().add(two_cell_row()).add(two_cell_row());
    assert_eq!(table.to_anki(), "a | b\na | b".to_string());
}

#[test]
fn ordered_list_numbers_past_nine() {
    let mut list = List::new(ListType::Ordered);
    let mut n = 0;
    while n < 12 {
        list = list.add(ListItem::item(TextBlock::from("x")));
        n += 1;
    }
    let rendered = list.to_anki(1);
    assert!(rendered.ends_with("12) x"));
    assert!(rendered.starts_with("1) x\n2) x\n"));
    assert!(rendered.contains("10) x\n11) x\n12) x"));
}

#[test]
fn runs_render_with_their_markers() {
    let block = TextBlock::new()
        .add(Text::text("a"))
        .add(Text::code("i = 1"))
        .add(Text::sub("j"))
        .add(Text::sup("2"));
    assert_eq!(block.to_anki(), "a`i = 1`_{j}^{2}".to_string());
}

#[test]
fn image_renders_as_tag_line() {
    let doc = Document::new().add(IR::img("image.png"));
    assert_eq!(convert(doc), "<img src=\"image.png\" />".to_string());
}

#[test]
fn preformatted_renders_fenced() {
    let doc = Document::new().add(IR::pre("x = 1\n\nx"));
    assert_eq!(convert(doc), "```x = 1\n\nx```".to_string());
}

#[test]
fn header_folds_to_paragraph() {
    let doc = Document::new().add(IR::header(2, "Title")).add(IR::par(TextBlock::from("body")));
    assert_eq!(convert(doc), "Title\n\nbody".to_string());
}

#[test]
fn list_content_renders_at_depth() {
    let item = ListItem::item(TextBlock::from("a"));
    assert_eq!(item.to_anki(1), "a".to_string());
    let nested = List::new(ListType::Unordered).add(ListItem::item(TextBlock::from("b")));
    let content = ListContent::from(nested);
    assert_eq!(content.to_anki(2), "---- b".to_string());
}
