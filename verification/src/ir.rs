//! The typed intermediate representation: inline text runs with a merge
//! invariant, recursive lists, tables with optional header and footer rows,
//! and the document node alphabet.

use vstd::prelude::*;

verus! {

/// One inline run of a text block.
#[derive(Debug, PartialEq)]
pub enum Text {
    Text(String),
    Sub(TextBlock),
    Sup(TextBlock),
    Code(String),
}

/// An ordered sequence of inline runs; two adjacent plain runs are always
/// coalesced by `add`.
#[derive(Debug, PartialEq)]
pub struct TextBlock {
    pub content: Vec<Text>,
}

/// The mathematical shape of one inline run.
#[verifier::ext_equal]
pub ghost enum RunV {
    Plain(Seq<char>),
    Sub(Seq<RunV>),
    Sup(Seq<RunV>),
    Code(Seq<char>),
}

pub open spec fn text_view(t: Text) -> RunV
    decreases t,
{
    match t {
        Text::Text(s) => RunV::Plain(s@),
        Text::Sub(b) => RunV::Sub(texts_view(b.content@)),
        Text::Sup(b) => RunV::Sup(texts_view(b.content@)),
        Text::Code(s) => RunV::Code(s@),
    }
}

pub open spec fn texts_view(ts: Seq<Text>) -> Seq<RunV>
    decreases ts,
{
    if ts.len() == 0 {
        Seq::empty()
    } else {
        seq![text_view(ts[0])] + texts_view(ts.drop_first())
    }
}

pub broadcast proof fn lemma_texts_view_len(ts: Seq<Text>)
    ensures
        #[trigger] texts_view(ts).len() == ts.len(),
    decreases ts.len(),
{
    if ts.len() > 0 {
        lemma_texts_view_len(ts.drop_first());
    }
}

pub broadcast proof fn lemma_texts_view_index(ts: Seq<Text>, i: int)
    requires
        0 <= i < ts.len(),
    ensures
        #[trigger] texts_view(ts)[i] == text_view(ts[i]),
    decreases ts.len(),
{
    lemma_texts_view_len(ts);
    if i > 0 {
        lemma_texts_view_index(ts.drop_first(), i - 1);
    }
}

impl View for Text {
    type V = RunV;

    open spec fn view(&self) -> RunV {
        text_view(*self)
    }
}

impl View for TextBlock {
    type V = Seq<RunV>;

    open spec fn view(&self) -> Seq<RunV> {
        texts_view(self.content@)
    }
}

impl Text {
    pub fn text(text: &str) -> (r: Self)
        ensures
            r@ == RunV::Plain(text@),
    {
        Text::Text(text.to_owned())
    }

    pub fn sub(text: &str) -> (r: Self)
        ensures
            r@ == RunV::Sub(seq![RunV::Plain(text@)]),
    {
        let b = TextBlock::new().add(Text::text(text));
        proof {
            broadcast use lemma_texts_view_len, lemma_texts_view_index;

            assert(b@ =~= seq![RunV::Plain(text@)]);
        }
        Text::Sub(b)
    }

    pub fn sup(text: &str) -> (r: Self)
        ensures
            r@ == RunV::Sup(seq![RunV::Plain(text@)]),
    {
        let b = TextBlock::new().add(Text::text(text));
        proof {
            broadcast use lemma_texts_view_len, lemma_texts_view_index;

            assert(b@ =~= seq![RunV::Plain(text@)]);
        }
        Text::Sup(b)
    }

    pub fn code(code: &str) -> (r: Self)
        ensures
            r@ == RunV::Code(code@),
    {
        Text::Code(code.to_owned())
    }
}

/// How a run is appended to a block: two plain runs at the seam coalesce
/// into one, anything else is pushed unchanged.
pub open spec fn tb_add_spec(runs: Seq<RunV>, t: RunV) -> Seq<RunV> {
    if runs.len() > 0 && (runs.last() matches RunV::Plain(a)) && (t matches RunV::Plain(b)) {
        runs.drop_last().push(RunV::Plain(runs.last()->Plain_0 + t->Plain_0))
    } else {
        runs.push(t)
    }
}

/// No two adjacent plain runs.
pub open spec fn no_adjacent_plain(runs: Seq<RunV>) -> bool {
    forall|i: int|
        0 <= i && i + 1 < runs.len() ==> !((#[trigger] runs[i] is Plain) && (runs[i + 1] is Plain))
}

/// Appending preserves the merge invariant.
pub proof fn lemma_tb_add_preserves_invariant(runs: Seq<RunV>, t: RunV)
    requires
        no_adjacent_plain(runs),
    ensures
        no_adjacent_plain(tb_add_spec(runs, t)),
{
    let out = tb_add_spec(runs, t);
    if runs.len() > 0 && (runs.last() is Plain) && (t is Plain) {
        assert forall|i: int| 0 <= i && i + 1 < out.len() implies !((#[trigger] out[i] is Plain) && (out[i
            + 1] is Plain)) by {
            if i + 1 < out.len() - 1 {
                assert(out[i] == runs[i] && out[i + 1] == runs[i + 1]);
            } else {
                assert(out[i] == runs[i]);
            }
        }
    } else {
        assert forall|i: int| 0 <= i && i + 1 < out.len() implies !((#[trigger] out[i] is Plain) && (out[i
            + 1] is Plain)) by {
            if i + 1 < out.len() - 1 {
                assert(out[i] == runs[i] && out[i + 1] == runs[i + 1]);
            }
        }
    }
}

/// Any sequence of appends, one run at a time.
pub open spec fn tb_add_all(runs: Seq<RunV>, ts: Seq<RunV>) -> Seq<RunV>
    decreases ts.len(),
{
    if ts.len() == 0 {
        runs
    } else {
        tb_add_all(tb_add_spec(runs, ts[0]), ts.drop_first())
    }
}

/// However many runs are appended to a block holding the merge invariant —
/// an empty block holds it trivially — the result still holds it: no two
/// adjacent plain runs ever stand in a text block.
pub proof fn lemma_tb_add_all_preserves_invariant(runs: Seq<RunV>, ts: Seq<RunV>)
    requires
        no_adjacent_plain(runs),
    ensures
        no_adjacent_plain(tb_add_all(runs, ts)),
    decreases ts.len(),
{
    if ts.len() > 0 {
        lemma_tb_add_preserves_invariant(runs, ts[0]);
        lemma_tb_add_all_preserves_invariant(tb_add_spec(runs, ts[0]), ts.drop_first());
    }
}

/// Appending `"a"` then `"b"` is appending `"ab"`: plain runs coalesce.
pub proof fn lemma_tb_plain_coalesce(runs: Seq<RunV>, x: Seq<char>, y: Seq<char>)
    ensures
        tb_add_spec(tb_add_spec(runs, RunV::Plain(x)), RunV::Plain(y)) == tb_add_spec(
            runs,
            RunV::Plain(x + y),
        ),
{
    if runs.len() > 0 && (runs.last() is Plain) {
        let a = runs.last()->Plain_0;
        let mid = runs.drop_last().push(RunV::Plain(a + x));
        assert(mid.last() == RunV::Plain(a + x));
        assert(mid.drop_last() =~= runs.drop_last());
        assert((a + x) + y =~= a + (x + y));
        assert(tb_add_spec(tb_add_spec(runs, RunV::Plain(x)), RunV::Plain(y)) =~= tb_add_spec(
            runs,
            RunV::Plain(x + y),
        ));
    } else {
        let mid = runs.push(RunV::Plain(x));
        assert(mid.last() == RunV::Plain(x));
        assert(mid.drop_last() =~= runs);
        assert(tb_add_spec(tb_add_spec(runs, RunV::Plain(x)), RunV::Plain(y)) =~= tb_add_spec(
            runs,
            RunV::Plain(x + y),
        ));
    }
}

impl TextBlock {
    pub fn new() -> (r: Self)
        ensures
            r@ == Seq::<RunV>::empty(),
    {
        let r = TextBlock { content: Vec::new() };
        proof {
            assert(r@ =~= Seq::<RunV>::empty());
        }
        r
    }

    pub fn add(self, text: Text) -> (r: Self)
        ensures
            r@ == tb_add_spec(self@, text@),
    {
        proof {
            broadcast use lemma_texts_view_len, lemma_texts_view_index;

        }
        let mut content = self.content;
        let ghost old_content = content@;
        match (content.pop(), text) {
            (Some(Text::Text(x)), Text::Text(y)) => {
                proof {
                    assert(texts_view(old_content).last() == text_view(old_content.last()));
                    assert(texts_view(old_content.drop_last()) =~= texts_view(
                        old_content,
                    ).drop_last());
                }
                let ghost xv = x@;
                let merged = x.concat(y.as_str());
                content.push(Text::Text(merged));
                proof {
                    assert(texts_view(content@) =~= texts_view(old_content.drop_last()).push(
                        RunV::Plain(xv + y@),
                    ));
                    assert(texts_view(content@) =~= tb_add_spec(
                        texts_view(old_content),
                        text_view(Text::Text(y)),
                    ));
                }
                TextBlock { content }
            },
            (Some(x), y) => {
                let ghost is_merge = (text_view(x) is Plain) && (text_view(y) is Plain);
                proof {
                    assert(!is_merge) by {
                        if (x matches Text::Text(_)) && (y matches Text::Text(_)) {
                            assert(false);
                        }
                    }
                    assert(texts_view(old_content).last() == text_view(old_content.last()));
                }
                content.push(x);
                content.push(y);
                proof {
                    assert(content@ =~= old_content.push(y));
                    assert(texts_view(content@) =~= texts_view(old_content).push(text_view(y)));
                }
                TextBlock { content }
            },
            (None, y) => {
                content.push(y);
                proof {
                    assert(texts_view(content@) =~= Seq::<RunV>::empty().push(text_view(y)));
                    assert(texts_view(old_content).len() == 0);
                }
                TextBlock { content }
            },
        }
    }

    pub fn build(self) -> (r: Self)
        ensures
            r == self,
    {
        self
    }
}

impl Clone for Text {
    fn clone(&self) -> (r: Self)
        ensures
            r@ == self@,
        decreases self,
    {
        match self {
            Text::Text(s) => Text::Text(s.clone()),
            Text::Sub(b) => Text::Sub(b.clone()),
            Text::Sup(b) => Text::Sup(b.clone()),
            Text::Code(s) => Text::Code(s.clone()),
        }
    }
}

impl Clone for TextBlock {
    fn clone(&self) -> (r: Self)
        ensures
            r@ == self@,
        decreases self,
    {
        proof {
            broadcast use lemma_texts_view_len, lemma_texts_view_index;

        }
        let n = self.content.len();
        let mut content: Vec<Text> = Vec::new();
        let mut i: usize = 0;
        while i < n
            invariant
                i <= n,
                n == self.content@.len(),
                content@.len() == i,
                forall|k: int|
                    0 <= k < i ==> text_view(#[trigger] content@[k]) == text_view(
                        self.content@[k],
                    ),
            decreases n - i,
        {
            let c = self.content[i].clone();
            content.push(c);
            i = i + 1;
        }
        let r = TextBlock { content };
        proof {
            assert(r@ =~= self@);
        }
        r
    }
}

/// Whether list items are numbered or dashed.
#[derive(Debug, Clone, Copy, PartialEq, Eq)]
pub enum ListType {
    Ordered,
    Unordered,
}

/// One entry of a list item: a text block, or a nested list.
#[derive(Debug, PartialEq)]
pub enum ListContent {
    Text(TextBlock),
    List(List),
}

/// One item of a list: its contents in order.
#[derive(Debug, PartialEq)]
pub struct ListItem {
    pub content: Vec<ListContent>,
}

/// An ordered or unordered list of items; lists nest through `ListContent`.
#[derive(Debug, PartialEq)]
pub struct List {
    pub style: ListType,
    pub items: Vec<ListItem>,
}

#[verifier::ext_equal]
pub ghost enum ContentV {
    Text(Seq<RunV>),
    List(ListV),
}

#[verifier::ext_equal]
pub ghost struct ListV {
    pub style: ListType,
    pub items: Seq<Seq<ContentV>>,
}

pub open spec fn content_view(c: ListContent) -> ContentV
    decreases c,
{
    match c {
        ListContent::Text(b) => ContentV::Text(texts_view(b.content@)),
        ListContent::List(l) => ContentV::List(list_view(l)),
    }
}

pub open spec fn contents_view(cs: Seq<ListContent>) -> Seq<ContentV>
    decreases cs,
{
    if cs.len() == 0 {
        Seq::empty()
    } else {
        seq![content_view(cs[0])] + contents_view(cs.drop_first())
    }
}

pub open spec fn item_view(it: ListItem) -> Seq<ContentV> {
    contents_view(it.content@)
}

pub open spec fn items_view(its: Seq<ListItem>) -> Seq<Seq<ContentV>>
    decreases its,
{
    if its.len() == 0 {
        Seq::empty()
    } else {
        seq![contents_view(its[0].content@)] + items_view(its.drop_first())
    }
}

pub open spec fn list_view(l: List) -> ListV
    decreases l,
{
    ListV { style: l.style, items: items_view(l.items@) }
}

pub broadcast proof fn lemma_contents_view_len(cs: Seq<ListContent>)
    ensures
        #[trigger] contents_view(cs).len() == cs.len(),
    decreases cs.len(),
{
    if cs.len() > 0 {
        lemma_contents_view_len(cs.drop_first());
    }
}

pub broadcast proof fn lemma_contents_view_index(cs: Seq<ListContent>, i: int)
    requires
        0 <= i < cs.len(),
    ensures
        #[trigger] contents_view(cs)[i] == content_view(cs[i]),
    decreases cs.len(),
{
    lemma_contents_view_len(cs);
    if i > 0 {
        lemma_contents_view_index(cs.drop_first(), i - 1);
    }
}

pub broadcast proof fn lemma_items_view_len(its: Seq<ListItem>)
    ensures
        #[trigger] items_view(its).len() == its.len(),
    decreases its.len(),
{
    if its.len() > 0 {
        lemma_items_view_len(its.drop_first());
    }
}

pub broadcast proof fn lemma_items_view_index(its: Seq<ListItem>, i: int)
    requires
        0 <= i < its.len(),
    ensures
        #[trigger] items_view(its)[i] == contents_view(its[i].content@),
    decreases its.len(),
{
    lemma_items_view_len(its);
    if i > 0 {
        lemma_items_view_index(its.drop_first(), i - 1);
    }
}

pub proof fn lemma_items_view_push(its: Seq<ListItem>, it: ListItem)
    ensures
        items_view(its.push(it)) == items_view(its).push(contents_view(it.content@)),
    decreases its.len(),
{
    if its.len() == 0 {
        assert(its.push(it)[0] == it);
        assert(its.push(it).drop_first() =~= Seq::<ListItem>::empty());
        assert(seq![contents_view(it.content@)] + items_view(Seq::<ListItem>::empty())
            =~= items_view(its).push(contents_view(it.content@)));
    } else {
        assert(its.push(it)[0] == its[0]);
        assert(its.push(it).drop_first() =~= its.drop_first().push(it));
        lemma_items_view_push(its.drop_first(), it);
        assert(seq![contents_view(its[0].content@)] + items_view(its.drop_first()).push(
            contents_view(it.content@),
        ) =~= (seq![contents_view(its[0].content@)] + items_view(its.drop_first())).push(
            contents_view(it.content@),
        ));
    }
}

pub proof fn lemma_items_view_pointwise(a: Seq<ListItem>, b: Seq<ListItem>)
    requires
        a.len() == b.len(),
        forall|k: int| 0 <= k < a.len() ==> item_view(#[trigger] a[k]) == item_view(b[k]),
    ensures
        items_view(a) == items_view(b),
    decreases a.len(),
{
    if a.len() > 0 {
        assert(item_view(a[0]) == item_view(b[0]));
        assert forall|k: int| 0 <= k < a.drop_first().len() implies item_view(
            #[trigger] a.drop_first()[k],
        ) == item_view(b.drop_first()[k]) by {
            assert(a.drop_first()[k] == a[k + 1]);
            assert(b.drop_first()[k] == b[k + 1]);
            assert(item_view(a[k + 1]) == item_view(b[k + 1]));
        }
        lemma_items_view_pointwise(a.drop_first(), b.drop_first());
    }
}

impl View for ListContent {
    type V = ContentV;

    open spec fn view(&self) -> ContentV {
        content_view(*self)
    }
}

impl View for ListItem {
    type V = Seq<ContentV>;

    open spec fn view(&self) -> Seq<ContentV> {
        contents_view(self.content@)
    }
}

impl View for List {
    type V = ListV;

    open spec fn view(&self) -> ListV {
        list_view(*self)
    }
}

impl ListItem {
    pub fn new() -> (r: Self)
        ensures
            r@ == Seq::<ContentV>::empty(),
    {
        let r = ListItem { content: Vec::new() };
        proof {
            assert(r@ =~= Seq::<ContentV>::empty());
        }
        r
    }

    pub fn add(self, content: ListContent) -> (r: Self)
        ensures
            r@ == self@.push(content@),
    {
        proof {
            broadcast use lemma_contents_view_len, lemma_contents_view_index;

        }
        let mut items = self.content;
        let ghost old_items = items@;
        items.push(content);
        let r = ListItem { content: items };
        proof {
            assert(r@ =~= contents_view(old_items).push(content_view(old_items.push(
                content,
            ).last())));
        }
        r
    }

    pub fn build(self) -> (r: Self)
        ensures
            r == self,
    {
        self
    }

    /// An item holding one text block.
    pub fn item(text: TextBlock) -> (r: Self)
        ensures
            r@ == seq![ContentV::Text(text@)],
    {
        ListItem::new().add(ListContent::Text(text)).build()
    }

    /// An item holding a text block followed by a nested list.
    pub fn item_nested_list(text: TextBlock, list: List) -> (r: Self)
        ensures
            r@ == seq![ContentV::Text(text@), ContentV::List(list@)],
    {
        let r = ListItem::new().add(ListContent::Text(text)).add(ListContent::List(list)).build();
        proof {
            assert(Seq::<ContentV>::empty().push(ContentV::Text(text@)).push(
                ContentV::List(list@),
            ) =~= seq![ContentV::Text(text@), ContentV::List(list@)]);
        }
        r
    }
}

impl List {
    pub fn new(style: ListType) -> (r: Self)
        ensures
            r@ == (ListV { style, items: Seq::empty() }),
    {
        let r = List { style, items: Vec::new() };
        proof {
            assert(r@.items =~= Seq::<Seq<ContentV>>::empty());
        }
        r
    }

    pub fn style(&self) -> (r: &ListType)
        ensures
            *r == self@.style,
    {
        &self.style
    }

    pub fn add(self, item: ListItem) -> (r: Self)
        ensures
            r@ == (ListV { style: self@.style, items: self@.items.push(item@) }),
    {
        proof {
            broadcast use lemma_items_view_len, lemma_items_view_index;

        }
        let mut items = self.items;
        let ghost old_items = items@;
        items.push(item);
        let r = List { style: self.style, items };
        proof {
            lemma_items_view_push(old_items, item);
        }
        r
    }

    pub fn build(self) -> (r: Self)
        ensures
            r == self,
    {
        self
    }

    /// The same items under the ordered style.
    pub fn ordered(self) -> (r: Self)
        ensures
            r@ == (ListV { style: ListType::Ordered, items: self@.items }),
    {
        List { style: ListType::Ordered, items: self.items }
    }

    /// The same items under the unordered style.
    pub fn unordered(self) -> (r: Self)
        ensures
            r@ == (ListV { style: ListType::Unordered, items: self@.items }),
    {
        List { style: ListType::Unordered, items: self.items }
    }

    pub fn is_ordered(&self) -> (r: bool)
        ensures
            r == (self@.style is Ordered),
    {
        match self.style {
            ListType::Ordered => true,
            ListType::Unordered => false,
        }
    }
}

impl Clone for ListContent {
    fn clone(&self) -> (r: Self)
        ensures
            r@ == self@,
        decreases self,
    {
        match self {
            ListContent::Text(b) => ListContent::Text(b.clone()),
            ListContent::List(l) => ListContent::List(l.clone()),
        }
    }
}

impl Clone for ListItem {
    fn clone(&self) -> (r: Self)
        ensures
            r@ == self@,
        decreases self,
    {
        proof {
            broadcast use lemma_contents_view_len, lemma_contents_view_index;

        }
        let n = self.content.len();
        let mut content: Vec<ListContent> = Vec::new();
        let mut i: usize = 0;
        while i < n
            invariant
                i <= n,
                n == self.content@.len(),
                content@.len() == i,
                forall|k: int|
                    0 <= k < i ==> content_view(#[trigger] content@[k]) == content_view(
                        self.content@[k],
                    ),
            decreases n - i,
        {
            let c = self.content[i].clone();
            content.push(c);
            i = i + 1;
        }
        let r = ListItem { content };
        proof {
            assert(r@ =~= self@);
        }
        r
    }
}

impl Clone for List {
    fn clone(&self) -> (r: Self)
        ensures
            r@ == self@,
        decreases self,
    {
        proof {
            broadcast use lemma_items_view_len, lemma_items_view_index;

        }
        let n = self.items.len();
        let mut items: Vec<ListItem> = Vec::new();
        let mut i: usize = 0;
        while i < n
            invariant
                i <= n,
                n == self.items@.len(),
                items@.len() == i,
                forall|k: int|
                    0 <= k < i ==> item_view(#[trigger] items@[k]) == item_view(self.items@[k]),
            decreases n - i,
        {
            let it = self.items[i].clone();
            items.push(it);
            i = i + 1;
        }
        let r = List { style: self.style, items };
        proof {
            lemma_items_view_pointwise(items@, self.items@);
        }
        r
    }
}

/// One table cell, wrapping a text block.
#[derive(Debug, PartialEq)]
pub struct TableCell(pub TextBlock);

/// One table row: its cells in order.
#[derive(Debug, PartialEq)]
pub struct TableRow {
    pub columns: Vec<TableCell>,
}

/// A table: an optional header row, body rows, an optional footer row.
#[derive(Debug, PartialEq)]
pub struct Table {
    pub header: Option<TableRow>,
    pub body: Vec<TableRow>,
    pub footer: Option<TableRow>,
}

#[verifier::ext_equal]
pub ghost struct TableV {
    pub header: Option<Seq<Seq<RunV>>>,
    pub body: Seq<Seq<Seq<RunV>>>,
    pub footer: Option<Seq<Seq<RunV>>>,
}

pub open spec fn cell_view(c: TableCell) -> Seq<RunV> {
    texts_view(c.0.content@)
}

pub open spec fn cells_view(cs: Seq<TableCell>) -> Seq<Seq<RunV>>
    decreases cs.len(),
{
    if cs.len() == 0 {
        Seq::empty()
    } else {
        seq![cell_view(cs[0])] + cells_view(cs.drop_first())
    }
}

pub open spec fn row_view(r: TableRow) -> Seq<Seq<RunV>> {
    cells_view(r.columns@)
}

pub open spec fn rows_view(rs: Seq<TableRow>) -> Seq<Seq<Seq<RunV>>>
    decreases rs.len(),
{
    if rs.len() == 0 {
        Seq::empty()
    } else {
        seq![cells_view(rs[0].columns@)] + rows_view(rs.drop_first())
    }
}

pub open spec fn opt_row_view(o: Option<TableRow>) -> Option<Seq<Seq<RunV>>> {
    match o {
        Option::None => Option::None,
        Option::Some(r) => Option::Some(row_view(r)),
    }
}

pub open spec fn table_view(t: Table) -> TableV {
    TableV {
        header: opt_row_view(t.header),
        body: rows_view(t.body@),
        footer: opt_row_view(t.footer),
    }
}

pub broadcast proof fn lemma_cells_view_len(cs: Seq<TableCell>)
    ensures
        #[trigger] cells_view(cs).len() == cs.len(),
    decreases cs.len(),
{
    if cs.len() > 0 {
        lemma_cells_view_len(cs.drop_first());
    }
}

pub broadcast proof fn lemma_cells_view_index(cs: Seq<TableCell>, i: int)
    requires
        0 <= i < cs.len(),
    ensures
        #[trigger] cells_view(cs)[i] == cell_view(cs[i]),
    decreases cs.len(),
{
    lemma_cells_view_len(cs);
    if i > 0 {
        lemma_cells_view_index(cs.drop_first(), i - 1);
    }
}

pub broadcast proof fn lemma_rows_view_len(rs: Seq<TableRow>)
    ensures
        #[trigger] rows_view(rs).len() == rs.len(),
    decreases rs.len(),
{
    if rs.len() > 0 {
        lemma_rows_view_len(rs.drop_first());
    }
}

pub broadcast proof fn lemma_rows_view_index(rs: Seq<TableRow>, i: int)
    requires
        0 <= i < rs.len(),
    ensures
        #[trigger] rows_view(rs)[i] == row_view(rs[i]),
    decreases rs.len(),
{
    lemma_rows_view_len(rs);
    if i > 0 {
        lemma_rows_view_index(rs.drop_first(), i - 1);
    }
}

pub proof fn lemma_cells_view_push(cs: Seq<TableCell>, c: TableCell)
    ensures
        cells_view(cs.push(c)) == cells_view(cs).push(cell_view(c)),
    decreases cs.len(),
{
    if cs.len() == 0 {
        assert(cs.push(c)[0] == c);
        assert(cs.push(c).drop_first() =~= Seq::<TableCell>::empty());
        assert(seq![cell_view(c)] + cells_view(Seq::<TableCell>::empty()) =~= cells_view(
            cs,
        ).push(cell_view(c)));
    } else {
        assert(cs.push(c)[0] == cs[0]);
        assert(cs.push(c).drop_first() =~= cs.drop_first().push(c));
        lemma_cells_view_push(cs.drop_first(), c);
        assert(seq![cell_view(cs[0])] + cells_view(cs.drop_first()).push(cell_view(c)) =~= (seq![
            cell_view(cs[0]),
        ] + cells_view(cs.drop_first())).push(cell_view(c)));
    }
}

pub proof fn lemma_rows_view_push(rs: Seq<TableRow>, r: TableRow)
    ensures
        rows_view(rs.push(r)) == rows_view(rs).push(row_view(r)),
    decreases rs.len(),
{
    if rs.len() == 0 {
        assert(rs.push(r)[0] == r);
        assert(rs.push(r).drop_first() =~= Seq::<TableRow>::empty());
        assert(seq![row_view(r)] + rows_view(Seq::<TableRow>::empty()) =~= rows_view(rs).push(
            row_view(r),
        ));
    } else {
        assert(rs.push(r)[0] == rs[0]);
        assert(rs.push(r).drop_first() =~= rs.drop_first().push(r));
        lemma_rows_view_push(rs.drop_first(), r);
        assert(seq![row_view(rs[0])] + rows_view(rs.drop_first()).push(row_view(r)) =~= (seq![
            row_view(rs[0]),
        ] + rows_view(rs.drop_first())).push(row_view(r)));
    }
}

impl View for TableCell {
    type V = Seq<RunV>;

    open spec fn view(&self) -> Seq<RunV> {
        cell_view(*self)
    }
}

impl View for TableRow {
    type V = Seq<Seq<RunV>>;

    open spec fn view(&self) -> Seq<Seq<RunV>> {
        row_view(*self)
    }
}

impl View for Table {
    type V = TableV;

    open spec fn view(&self) -> TableV {
        table_view(*self)
    }
}

impl TableCell {
    pub fn new(text: TextBlock) -> (r: Self)
        ensures
            r@ == text@,
    {
        TableCell(text)
    }

    /// The wrapped text block, surrendered.
    pub fn text(self) -> (r: TextBlock)
        ensures
            r@ == self@,
    {
        self.0
    }
}

impl Clone for TableCell {
    fn clone(&self) -> (r: Self)
        ensures
            r@ == self@,
    {
        TableCell(self.0.clone())
    }
}

impl TableRow {
    pub fn new() -> (r: Self)
        ensures
            r@ == Seq::<Seq<RunV>>::empty(),
    {
        let r = TableRow { columns: Vec::new() };
        proof {
            assert(r@ =~= Seq::<Seq<RunV>>::empty());
        }
        r
    }

    pub fn add(self, cell: TableCell) -> (r: Self)
        ensures
            r@ == self@.push(cell@),
    {
        proof {
            broadcast use lemma_cells_view_len, lemma_cells_view_index;

        }
        let mut columns = self.columns;
        let ghost old_columns = columns@;
        columns.push(cell);
        let r = TableRow { columns };
        proof {
            assert(r@ =~= cells_view(old_columns).push(cell_view(old_columns.push(cell).last())));
        }
        r
    }

    pub fn build(self) -> (r: Self)
        ensures
            r == self,
    {
        self
    }
}

impl Clone for TableRow {
    fn clone(&self) -> (r: Self)
        ensures
            r@ == self@,
    {
        proof {
            broadcast use lemma_cells_view_len, lemma_cells_view_index;

        }
        let n = self.columns.len();
        let mut columns: Vec<TableCell> = Vec::new();
        let mut i: usize = 0;
        while i < n
            invariant
                i <= n,
                n == self.columns@.len(),
                columns@.len() == i,
                forall|k: int|
                    0 <= k < i ==> cell_view(#[trigger] columns@[k]) == cell_view(
                        self.columns@[k],
                    ),
            decreases n - i,
        {
            let c = self.columns[i].clone();
            columns.push(c);
            i = i + 1;
        }
        let r = TableRow { columns };
        proof {
            assert(r@ =~= self@);
        }
        r
    }
}

impl Table {
    pub fn new() -> (r: Self)
        ensures
            r@ == (TableV {
                header: Option::None,
                body: Seq::empty(),
                footer: Option::None,
            }),
    {
        let r = Table { header: None, body: Vec::new(), footer: None };
        proof {
            assert(r@.body =~= Seq::<Seq<Seq<RunV>>>::empty());
        }
        r
    }

    pub fn set_header(self, header: TableRow) -> (r: Self)
        ensures
            r@ == (TableV { header: Option::Some(header@), ..self@ }),
    {
        Table { header: Some(header), ..self }
    }

    pub fn set_footer(self, footer: TableRow) -> (r: Self)
        ensures
            r@ == (TableV { footer: Option::Some(footer@), ..self@ }),
    {
        Table { footer: Some(footer), ..self }
    }

    pub fn add(self, row: TableRow) -> (r: Self)
        ensures
            r@ == (TableV { body: self@.body.push(row@), ..self@ }),
    {
        proof {
            broadcast use lemma_rows_view_len, lemma_rows_view_index;

        }
        let mut body = self.body;
        let ghost old_body = body@;
        body.push(row);
        let r = Table { header: self.header, body, footer: self.footer };
        proof {
            assert(r@.body =~= rows_view(old_body).push(row_view(old_body.push(row).last())));
        }
        r
    }

    pub fn build(self) -> (r: Self)
        ensures
            r == self,
    {
        self
    }

    /// Takes the header row out, leaving none behind.
    pub fn header(&mut self) -> (r: Option<TableRow>)
        ensures
            final(self)@ == (TableV { header: Option::None, ..old(self)@ }),
            (r matches Option::Some(row) ==> old(self)@.header == Option::Some(row@)),
            (r is None ==> old(self)@.header is None),
    {
        self.header.take()
    }

    /// Takes the footer row out, leaving none behind.
    pub fn footer(&mut self) -> (r: Option<TableRow>)
        ensures
            final(self)@ == (TableV { footer: Option::None, ..old(self)@ }),
            (r matches Option::Some(row) ==> old(self)@.footer == Option::Some(row@)),
            (r is None ==> old(self)@.footer is None),
    {
        self.footer.take()
    }

    /// The body rows, surrendered in order.
    pub fn body(self) -> (r: Vec<TableRow>)
        ensures
            rows_view(r@) == self@.body,
    {
        self.body
    }
}

impl Clone for Table {
    fn clone(&self) -> (r: Self)
        ensures
            r@ == self@,
    {
        let header = match &self.header {
            Some(h) => Some(h.clone()),
            None => None,
        };
        let footer = match &self.footer {
            Some(f) => Some(f.clone()),
            None => None,
        };
        proof {
            broadcast use lemma_rows_view_len, lemma_rows_view_index;

        }
        let n = self.body.len();
        let mut body: Vec<TableRow> = Vec::new();
        let mut i: usize = 0;
        while i < n
            invariant
                i <= n,
                n == self.body@.len(),
                body@.len() == i,
                forall|k: int|
                    0 <= k < i ==> row_view(#[trigger] body@[k]) == row_view(self.body@[k]),
            decreases n - i,
        {
            let row = self.body[i].clone();
            body.push(row);
            i = i + 1;
        }
        let r = Table { header, body, footer };
        proof {
            assert(r@.body =~= self@.body);
        }
        r
    }
}

/// One node of the rendered document.
#[derive(Debug, PartialEq)]
pub enum IR {
    Img(String),
    Pre(String),
    Par(TextBlock),
    List(List),
    Table(Table),
    Header(usize, String),
}

#[verifier::ext_equal]
pub ghost enum IRV {
    Img(Seq<char>),
    Pre(Seq<char>),
    Par(Seq<RunV>),
    List(ListV),
    Table(TableV),
    Header(int, Seq<char>),
}

pub open spec fn ir_view(x: IR) -> IRV {
    match x {
        IR::Img(src) => IRV::Img(src@),
        IR::Pre(text) => IRV::Pre(text@),
        IR::Par(b) => IRV::Par(texts_view(b.content@)),
        IR::List(l) => IRV::List(list_view(l)),
        IR::Table(t) => IRV::Table(table_view(t)),
        IR::Header(level, text) => IRV::Header(level as int, text@),
    }
}

impl View for IR {
    type V = IRV;

    open spec fn view(&self) -> IRV {
        ir_view(*self)
    }
}

impl IR {
    pub fn img(src: &str) -> (r: Self)
        ensures
            r@ == IRV::Img(src@),
    {
        IR::Img(src.to_owned())
    }

    pub fn pre(text: &str) -> (r: Self)
        ensures
            r@ == IRV::Pre(text@),
    {
        IR::Pre(text.to_owned())
    }

    pub fn par(text: TextBlock) -> (r: Self)
        ensures
            r@ == IRV::Par(text@),
    {
        IR::Par(text)
    }

    pub fn list(list: List) -> (r: Self)
        ensures
            r@ == IRV::List(list@),
    {
        IR::List(list)
    }

    pub fn table(table: Table) -> (r: Self)
        ensures
            r@ == IRV::Table(table@),
    {
        IR::Table(table)
    }

    pub fn header(level: usize, text: &str) -> (r: Self)
        ensures
            r@ == IRV::Header(level as int, text@),
    {
        IR::Header(level, text.to_owned())
    }
}

impl Clone for IR {
    fn clone(&self) -> (r: Self)
        ensures
            r@ == self@,
    {
        match self {
            IR::Img(s) => IR::Img(s.clone()),
            IR::Pre(s) => IR::Pre(s.clone()),
            IR::Par(b) => IR::Par(b.clone()),
            IR::List(l) => IR::List(l.clone()),
            IR::Table(t) => IR::Table(t.clone()),
            IR::Header(level, s) => IR::Header(*level, s.clone()),
        }
    }
}

/// The whole document: its top-level nodes in order.
#[derive(Debug, PartialEq)]
pub struct Document {
    pub children: Vec<IR>,
}

pub open spec fn irs_view(xs: Seq<IR>) -> Seq<IRV>
    decreases xs.len(),
{
    if xs.len() == 0 {
        Seq::empty()
    } else {
        seq![ir_view(xs[0])] + irs_view(xs.drop_first())
    }
}

pub broadcast proof fn lemma_irs_view_len(xs: Seq<IR>)
    ensures
        #[trigger] irs_view(xs).len() == xs.len(),
    decreases xs.len(),
{
    if xs.len() > 0 {
        lemma_irs_view_len(xs.drop_first());
    }
}

pub broadcast proof fn lemma_irs_view_index(xs: Seq<IR>, i: int)
    requires
        0 <= i < xs.len(),
    ensures
        #[trigger] irs_view(xs)[i] == ir_view(xs[i]),
    decreases xs.len(),
{
    lemma_irs_view_len(xs);
    if i > 0 {
        lemma_irs_view_index(xs.drop_first(), i - 1);
    }
}

impl View for Document {
    type V = Seq<IRV>;

    open spec fn view(&self) -> Seq<IRV> {
        irs_view(self.children@)
    }
}

impl Document {
    pub fn new() -> (r: Self)
        ensures
            r@ == Seq::<IRV>::empty(),
    {
        let r = Document { children: Vec::new() };
        proof {
            assert(r@ =~= Seq::<IRV>::empty());
        }
        r
    }

    pub fn add(self, item: IR) -> (r: Self)
        ensures
            r@ == self@.push(item@),
    {
        proof {
            broadcast use lemma_irs_view_len, lemma_irs_view_index;

        }
        let mut children = self.children;
        let ghost old_children = children@;
        children.push(item);
        let r = Document { children };
        proof {
            assert(r@ =~= irs_view(old_children).push(ir_view(old_children.push(item).last())));
        }
        r
    }
}

impl Clone for Document {
    fn clone(&self) -> (r: Self)
        ensures
            r@ == self@,
    {
        proof {
            broadcast use lemma_irs_view_len, lemma_irs_view_index;

        }
        let n = self.children.len();
        let mut children: Vec<IR> = Vec::new();
        let mut i: usize = 0;
        while i < n
            invariant
                i <= n,
                n == self.children@.len(),
                children@.len() == i,
                forall|k: int|
                    0 <= k < i ==> ir_view(#[trigger] children@[k]) == ir_view(self.children@[k]),
            decreases n - i,
        {
            let c = self.children[i].clone();
            children.push(c);
            i = i + 1;
        }
        let r = Document { children };
        proof {
            assert(r@ =~= self@);
        }
        r
    }
}

impl From<Text> for TextBlock {
    fn from(text: Text) -> (r: TextBlock)
        ensures
            r@ == seq![text@],
    {
        let r = TextBlock::new().add(text);
        proof {
            assert(Seq::<RunV>::empty().push(text@) =~= seq![text@]);
        }
        r
    }
}

impl vstd::std_specs::convert::FromSpecImpl<Text> for TextBlock {
    open spec fn obeys_from_spec() -> bool {
        false
    }

    open spec fn from_spec(text: Text) -> TextBlock {
        arbitrary()
    }
}

impl<'a> From<&'a str> for TextBlock {
    fn from(text: &'a str) -> (r: TextBlock)
        ensures
            r@ == seq![RunV::Plain(text@)],
    {
        TextBlock::from(Text::text(text))
    }
}

impl<'a> vstd::std_specs::convert::FromSpecImpl<&'a str> for TextBlock {
    open spec fn obeys_from_spec() -> bool {
        false
    }

    open spec fn from_spec(text: &'a str) -> TextBlock {
        arbitrary()
    }
}

impl From<TextBlock> for ListContent {
    fn from(text: TextBlock) -> (r: ListContent)
        ensures
            r@ == ContentV::Text(text@),
    {
        ListContent::Text(text)
    }
}

impl vstd::std_specs::convert::FromSpecImpl<TextBlock> for ListContent {
    open spec fn obeys_from_spec() -> bool {
        true
    }

    open spec fn from_spec(text: TextBlock) -> ListContent {
        ListContent::Text(text)
    }
}

impl<'a> From<&'a str> for ListContent {
    fn from(text: &'a str) -> (r: ListContent)
        ensures
            r@ == ContentV::Text(seq![RunV::Plain(text@)]),
    {
        ListContent::Text(TextBlock::from(text))
    }
}

impl<'a> vstd::std_specs::convert::FromSpecImpl<&'a str> for ListContent {
    open spec fn obeys_from_spec() -> bool {
        false
    }

    open spec fn from_spec(text: &'a str) -> ListContent {
        arbitrary()
    }
}

impl From<List> for ListContent {
    fn from(list: List) -> (r: ListContent)
        ensures
            r@ == ContentV::List(list@),
    {
        ListContent::List(list)
    }
}

impl vstd::std_specs::convert::FromSpecImpl<List> for ListContent {
    open spec fn obeys_from_spec() -> bool {
        true
    }

    open spec fn from_spec(list: List) -> ListContent {
        ListContent::List(list)
    }
}

impl From<TextBlock> for IR {
    fn from(text: TextBlock) -> (r: IR)
        ensures
            r@ == IRV::Par(text@),
    {
        IR::Par(text)
    }
}

impl vstd::std_specs::convert::FromSpecImpl<TextBlock> for IR {
    open spec fn obeys_from_spec() -> bool {
        true
    }

    open spec fn from_spec(text: TextBlock) -> IR {
        IR::Par(text)
    }
}

impl From<List> for IR {
    fn from(list: List) -> (r: IR)
        ensures
            r@ == IRV::List(list@),
    {
        IR::List(list)
    }
}

impl vstd::std_specs::convert::FromSpecImpl<List> for IR {
    open spec fn obeys_from_spec() -> bool {
        true
    }

    open spec fn from_spec(list: List) -> IR {
        IR::List(list)
    }
}

impl From<Table> for IR {
    fn from(table: Table) -> (r: IR)
        ensures
            r@ == IRV::Table(table@),
    {
        IR::Table(table)
    }
}

impl vstd::std_specs::convert::FromSpecImpl<Table> for IR {
    open spec fn obeys_from_spec() -> bool {
        true
    }

    open spec fn from_spec(table: Table) -> IR {
        IR::Table(table)
    }
}

} // verus!
