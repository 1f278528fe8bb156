use anki_convert::ir::Text;
use anki_convert::ir::TextBlock;

#[test]
fn textblock() {
    let block = TextBlock::new().add(Text::text("a ")).add(Text::text("b"));
    let result = TextBlock::new().add(Text::text("a b"));
    assert_eq!(block, result);
}

#[test]
fn textblock_separated_text() {
    let block = TextBlock::new()
        .add(Text::text("a "))
        .add(Text::text("b"))
        .add(Text::code("i = 1"))
        .add(Text::text("c "))
        .add(Text::text("d"));
    let result = TextBlock::new()
        .add(Text::text("a b"))
        .add(Text::code("i = 1"))
        .add(Text::text("c d"));
    assert_eq!(block, result);
}

#[test]
fn adjacent_text() {
    let block = TextBlock::new().add(Text::text("a ")).add(Text::text("b")).build();
    let result = TextBlock::from("a b");
    assert_eq!(block, result);
}

#[test]
fn separated_text() {
    let block = TextBlock::new()
        .add(Text::text("a "))
        .add(Text::text("b"))
        .add(Text::code("i = 1"))
        .add(Text::text("c "))
        .add(Text::text("d"))
        .build();
    let result = TextBlock::new()
        .add(Text::text("a b"))
        .add(Text::code("i = 1"))
        .add(Text::text("c d"))
        .build();
    assert_eq!(block, result);
}

#[test]
fn sub_and_sup_do_not_merge_with_plain() {
    let block = TextBlock::new()
        .add(Text::text("x"))
        .add(Text::sup("2"))
        .add(Text::text("y"))
        .add(Text::sub("i"));
    let again = TextBlock::new()
        .add(Text::text("x"))
        .add(Text::sup("2"))
        .add(Text::text("y"))
        .add(Text::sub("i"));
    assert_eq!(block, again);
    let merged = TextBlock::new().add(Text::text("x")).add(Text::text("y"));
    let single = TextBlock::new().add(Text::text("xy"));
    assert_eq!(merged, single);
}
