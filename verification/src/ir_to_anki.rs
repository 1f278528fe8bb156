//! The renderer: walks the intermediate representation and produces the flat
//! flashcard markup text.  Ordered items at depth `d` are prefixed by `d - 1`
//! dash pairs and `N) `; unordered items by `d` dash pairs and a space;
//! table rows are pipe-joined, with a dashed rule after a header row and
//! before a footer row.  Headers fold into plain paragraphs.

use crate::ir::{
    ContentV, Document, IR, IRV, List, ListContent, ListItem, ListType, ListV, RunV, Table,
    TableCell, TableRow, TableV, Text, TextBlock,
};
use crate::text::{dec_rep, join_with, trim_spec};
use vstd::prelude::*;

verus! {

broadcast use
    crate::ir::lemma_texts_view_len,
    crate::ir::lemma_texts_view_index,
    crate::ir::lemma_contents_view_len,
    crate::ir::lemma_contents_view_index,
    crate::ir::lemma_items_view_len,
    crate::ir::lemma_items_view_index,
    crate::ir::lemma_cells_view_len,
    crate::ir::lemma_cells_view_index,
    crate::ir::lemma_rows_view_len,
    crate::ir::lemma_rows_view_index,
    crate::ir::lemma_irs_view_len,
    crate::ir::lemma_irs_view_index;

/// The markup of one inline run.
pub open spec fn render_run(r: RunV) -> Seq<char>
    decreases r,
{
    match r {
        RunV::Plain(s) => s,
        RunV::Code(s) => seq!['`'] + s + seq!['`'],
        RunV::Sub(b) => seq!['_', '{'] + render_runs(b) + seq!['}'],
        RunV::Sup(b) => seq!['^', '{'] + render_runs(b) + seq!['}'],
    }
}

/// The markup of a text block: its runs, concatenated.
pub open spec fn render_runs(rs: Seq<RunV>) -> Seq<char>
    decreases rs,
{
    if rs.len() == 0 {
        Seq::empty()
    } else {
        render_run(rs[0]) + render_runs(rs.drop_first())
    }
}

/// `n` dash pairs.
pub open spec fn indent_seq(n: nat) -> Seq<char>
    decreases n,
{
    if n == 0 {
        Seq::empty()
    } else {
        seq!['-', '-'] + indent_seq((n - 1) as nat)
    }
}

/// The markup of one list-item entry, rendered at the given depth.
pub open spec fn render_content(c: ContentV, depth: nat) -> Seq<char>
    decreases c, 4int,
{
    match c {
        ContentV::Text(rs) => render_runs(rs),
        ContentV::List(l) => render_list(l, depth),
    }
}

/// The entries of one item, each rendered one level deeper.
pub open spec fn content_parts(cs: Seq<ContentV>, depth: nat) -> Seq<Seq<char>>
    decreases cs, 2int,
{
    if cs.len() == 0 {
        Seq::empty()
    } else {
        seq![render_content(cs[0], depth + 1)] + content_parts(cs.drop_first(), depth)
    }
}

/// The markup of one list item at the given depth: its entries, newline-joined.
pub open spec fn render_item(cs: Seq<ContentV>, depth: nat) -> Seq<char>
    decreases cs, 3int,
{
    join_with(content_parts(cs, depth), seq!['\n'])
}

/// One line per item: the indent for the style and depth, the marker, the item.
pub open spec fn item_lines(
    items: Seq<Seq<ContentV>>,
    style: ListType,
    depth: nat,
    num: nat,
) -> Seq<Seq<char>>
    decreases items, 5int,
{
    if items.len() == 0 {
        Seq::empty()
    } else {
        let item = join_with(content_parts(items[0], depth), seq!['\n']);
        let line = if style is Ordered {
            indent_seq((depth - 1) as nat) + dec_rep(num) + seq![')', ' '] + item
        } else {
            indent_seq(depth) + seq![' '] + item
        };
        seq![line] + item_lines(items.drop_first(), style, depth, num + 1)
    }
}

/// The markup of a list at the given depth: item lines, numbered from 1 when
/// ordered, newline-joined.
pub open spec fn render_list(l: ListV, depth: nat) -> Seq<char>
    decreases l, 6int,
{
    join_with(item_lines(l.items, l.style, depth, 1), seq!['\n'])
}

/// The markup of one table row: its cells, pipe-joined.
pub open spec fn render_cells(cells: Seq<Seq<RunV>>) -> Seq<Seq<char>>
    decreases cells.len(),
{
    if cells.len() == 0 {
        Seq::empty()
    } else {
        seq![render_runs(cells[0])] + render_cells(cells.drop_first())
    }
}

pub open spec fn render_row(row: Seq<Seq<RunV>>) -> Seq<char> {
    join_with(render_cells(row), seq![' ', '|', ' '])
}

pub open spec fn render_rows(rows: Seq<Seq<Seq<RunV>>>) -> Seq<Seq<char>>
    decreases rows.len(),
{
    if rows.len() == 0 {
        Seq::empty()
    } else {
        seq![render_row(rows[0])] + render_rows(rows.drop_first())
    }
}

/// The dashed rule line between a header or footer row and the body.
pub open spec fn table_rule() -> Seq<char> {
    seq!['-', '-', '-', '-', '-']
}

/// The markup of a table: body rows newline-joined; a rule line after the
/// header row if one is present, and before the footer row if one is present.
pub open spec fn render_table(t: TableV) -> Seq<char> {
    let body = join_with(render_rows(t.body), seq!['\n']);
    match (t.header, t.footer) {
        (Option::Some(h), Option::Some(f)) => render_row(h) + seq!['\n'] + table_rule() + seq![
            '\n',
        ] + body + seq!['\n'] + table_rule() + seq!['\n'] + render_row(f),
        (Option::None, Option::Some(f)) => body + seq!['\n'] + table_rule() + seq!['\n']
            + render_row(f),
        (Option::Some(h), Option::None) => render_row(h) + seq!['\n'] + table_rule() + seq!['\n']
            + body,
        (Option::None, Option::None) => body,
    }
}

/// The markup of one document node.  A header's level is dropped: it renders
/// as a plain paragraph.
pub open spec fn render_ir(x: IRV) -> Seq<char> {
    match x {
        IRV::Img(src) => seq!['<', 'i', 'm', 'g', ' ', 's', 'r', 'c', '=', '"'] + src + seq![
            '"',
            ' ',
            '/',
            '>',
            '\n',
        ],
        IRV::Pre(text) => seq!['`', '`', '`'] + text + seq!['`', '`', '`', '\n', '\n'],
        IRV::Par(rs) => render_runs(rs) + seq!['\n', '\n'],
        IRV::List(l) => render_list(l, 1) + seq!['\n', '\n'],
        IRV::Table(t) => render_table(t) + seq!['\n', '\n'],
        IRV::Header(level, text) => text + seq!['\n', '\n'],
    }
}

pub open spec fn render_irs(xs: Seq<IRV>) -> Seq<char>
    decreases xs.len(),
{
    if xs.len() == 0 {
        Seq::empty()
    } else {
        render_ir(xs[0]) + render_irs(xs.drop_first())
    }
}

/// The whole rendered document: node renderings concatenated, then trimmed.
pub open spec fn render_document(doc: Seq<IRV>) -> Seq<char> {
    trim_spec(render_irs(doc))
}

proof fn lemma_join_with_push(parts: Seq<Seq<char>>, x: Seq<char>, sep: Seq<char>)
    requires
        parts.len() >= 1,
    ensures
        join_with(parts.push(x), sep) == join_with(parts, sep) + sep + x,
    decreases parts.len(),
{
    if parts.len() == 1 {
        assert(parts.push(x)[0] == parts[0]);
        assert(parts.push(x).drop_first() =~= seq![x]);
        assert(join_with(seq![x], sep) == x);
    } else {
        assert(parts.push(x)[0] == parts[0]);
        assert(parts.push(x).drop_first() =~= parts.drop_first().push(x));
        lemma_join_with_push(parts.drop_first(), x, sep);
        assert(parts[0] + sep + (join_with(parts.drop_first(), sep) + sep + x) =~= (parts[0] + sep
            + join_with(parts.drop_first(), sep)) + sep + x);
    }
}

fn copy_chars(v: &Vec<char>) -> (r: Vec<char>)
    ensures
        r@ == v@,
{
    let n = v.len();
    let mut r: Vec<char> = Vec::new();
    let mut i: usize = 0;
    while i < n
        invariant
            i <= n,
            n == v@.len(),
            r@ == v@.subrange(0, i as int),
        decreases n - i,
    {
        let c = v[i];
        r.push(c);
        proof {
            assert(v@.subrange(0, i + 1) =~= v@.subrange(0, i as int).push(v@[i as int]));
        }
        i = i + 1;
    }
    proof {
        assert(v@.subrange(0, n as int) =~= v@);
    }
    r
}

/// Joins already-rendered pieces with the separator between each pair.
fn join_chars(parts: &Vec<Vec<char>>, sep: &Vec<char>) -> (r: Vec<char>)
    ensures
        r@ == join_with(crate::text::seq_views(parts@), sep@),
{
    let n = parts.len();
    if n == 0 {
        let r: Vec<char> = Vec::new();
        proof {
            assert(crate::text::seq_views(parts@) =~= Seq::<Seq<char>>::empty());
            assert(r@ =~= Seq::<char>::empty());
        }
        return r;
    }
    let mut r = copy_chars(&parts[0]);
    let mut i: usize = 1;
    proof {
        assert(crate::text::seq_views(parts@).take(1) =~= seq![parts@[0]@]);
        assert(join_with(seq![parts@[0]@], sep@) == parts@[0]@);
    }
    while i < n
        invariant
            1 <= i <= n,
            n == parts@.len(),
            r@ == join_with(crate::text::seq_views(parts@).take(i as int), sep@),
        decreases n - i,
    {
        crate::group_lines::push_all(&mut r, sep);
        crate::group_lines::push_all(&mut r, &parts[i]);
        proof {
            let views = crate::text::seq_views(parts@);
            assert(views.take(i + 1) =~= views.take(i as int).push(views[i as int]));
            lemma_join_with_push(views.take(i as int), views[i as int], sep@);
            assert(views[i as int] == parts@[i as int]@);
        }
        i = i + 1;
    }
    proof {
        assert(crate::text::seq_views(parts@).take(n as int) =~= crate::text::seq_views(parts@));
    }
    r
}

fn render_run_chars(t: &Text) -> (r: Vec<char>)
    ensures
        r@ == render_run(t@),
    decreases t,
{
    match t {
        Text::Text(s) => crate::text::string_to_chars(s.as_str()),
        Text::Code(s) => {
            let mut r: Vec<char> = Vec::new();
            r.push('`');
            let body = crate::text::string_to_chars(s.as_str());
            crate::group_lines::push_all(&mut r, &body);
            r.push('`');
            proof {
                assert(r@ =~= seq!['`'] + s@ + seq!['`']);
            }
            r
        },
        Text::Sub(b) => {
            let mut r: Vec<char> = Vec::new();
            r.push('_');
            r.push('{');
            let body = render_block_chars(b);
            crate::group_lines::push_all(&mut r, &body);
            r.push('}');
            proof {
                assert(r@ =~= seq!['_', '{'] + render_runs(b@) + seq!['}']);
            }
            r
        },
        Text::Sup(b) => {
            let mut r: Vec<char> = Vec::new();
            r.push('^');
            r.push('{');
            let body = render_block_chars(b);
            crate::group_lines::push_all(&mut r, &body);
            r.push('}');
            proof {
                assert(r@ =~= seq!['^', '{'] + render_runs(b@) + seq!['}']);
            }
            r
        },
    }
}

fn render_block_chars(b: &TextBlock) -> (r: Vec<char>)
    ensures
        r@ == render_runs(b@),
    decreases b,
{
    let n = b.content.len();
    let mut r: Vec<char> = Vec::new();
    let mut i: usize = 0;
    proof {
        assert(b@.skip(0) =~= b@);
        assert(r@ + render_runs(b@) =~= render_runs(b@));
    }
    while i < n
        invariant
            i <= n,
            n == b.content@.len(),
            render_runs(b@) == r@ + render_runs(b@.skip(i as int)),
            b@ == crate::ir::texts_view(b.content@),
        decreases n - i,
    {
        let piece = render_run_chars(&b.content[i]);
        proof {
            assert(b@.skip(i as int)[0] == b@[i as int]);
            assert(b@[i as int] == crate::ir::text_view(b.content@[i as int]));
            assert(b@.skip(i as int).drop_first() =~= b@.skip(i + 1));
            assert(r@ + (render_run(b@[i as int]) + render_runs(b@.skip(i + 1))) =~= (r@
                + render_run(b@[i as int])) + render_runs(b@.skip(i + 1)));
        }
        crate::group_lines::push_all(&mut r, &piece);
        i = i + 1;
    }
    proof {
        assert(b@.skip(n as int) =~= Seq::<RunV>::empty());
        assert(r@ + Seq::<char>::empty() =~= r@);
    }
    r
}

proof fn lemma_indent_seq_chars(n: nat)
    ensures
        indent_seq(n).len() == 2 * n,
        forall|k: int| 0 <= k < 2 * n ==> indent_seq(n)[k] == '-',
    decreases n,
{
    if n > 0 {
        lemma_indent_seq_chars((n - 1) as nat);
    }
}

fn make_indent(n: usize) -> (r: Vec<char>)
    ensures
        r@ == indent_seq(n as nat),
{
    let mut r: Vec<char> = Vec::new();
    let mut i: usize = 0;
    while i < n
        invariant
            i <= n,
            r@ == indent_seq(i as nat),
        decreases n - i,
    {
        proof {
            lemma_indent_seq_chars(i as nat);
            lemma_indent_seq_chars((i + 1) as nat);
        }
        r.push('-');
        r.push('-');
        proof {
            assert(r@ =~= indent_seq((i + 1) as nat));
        }
        i = i + 1;
    }
    r
}

fn render_content_chars(c: &ListContent, ind: &Vec<char>, Ghost(depth): Ghost<nat>) -> (r: Vec<
    char,
>)
    requires
        depth >= 1,
        ind@ == indent_seq((depth - 1) as nat),
    ensures
        r@ == render_content(c@, depth),
    decreases c,
{
    match c {
        ListContent::Text(b) => render_block_chars(b),
        ListContent::List(l) => render_list_chars(l, ind, Ghost(depth)),
    }
}

fn render_item_chars(it: &ListItem, ind: &Vec<char>, Ghost(depth): Ghost<nat>) -> (r: Vec<char>)
    requires
        depth >= 1,
        ind@ == indent_seq((depth - 1) as nat),
    ensures
        r@ == render_item(it@, depth),
    decreases it,
{
    let mut child_ind = copy_chars(ind);
    child_ind.push('-');
    child_ind.push('-');
    proof {
        lemma_indent_seq_chars((depth - 1) as nat);
        lemma_indent_seq_chars(depth);
        assert(child_ind@ =~= indent_seq(depth));
    }
    let n = it.content.len();
    let mut parts: Vec<Vec<char>> = Vec::new();
    let mut i: usize = 0;
    proof {
        assert(it@.skip(0) =~= it@);
        assert(crate::text::seq_views(parts@) =~= Seq::<Seq<char>>::empty());
        assert(Seq::<Seq<char>>::empty() + content_parts(it@, depth) =~= content_parts(
            it@,
            depth,
        ));
    }
    while i < n
        invariant
            i <= n,
            n == it.content@.len(),
            depth >= 1,
            child_ind@ == indent_seq(depth),
            it@ == crate::ir::contents_view(it.content@),
            content_parts(it@, depth) == crate::text::seq_views(parts@) + content_parts(
                it@.skip(i as int),
                depth,
            ),
        decreases n - i,
    {
        let piece = render_content_chars(&it.content[i], &child_ind, Ghost(depth + 1));
        proof {
            assert(it@.skip(i as int)[0] == it@[i as int]);
            assert(it@[i as int] == crate::ir::content_view(it.content@[i as int]));
            assert(it@.skip(i as int).drop_first() =~= it@.skip(i + 1));
            let views = crate::text::seq_views(parts@);
            assert(views + (seq![render_content(it@[i as int], depth + 1)] + content_parts(
                it@.skip(i + 1),
                depth,
            )) =~= views.push(render_content(it@[i as int], depth + 1)) + content_parts(
                it@.skip(i + 1),
                depth,
            ));
            assert(crate::text::seq_views(parts@.push(piece)) =~= views.push(piece@));
        }
        parts.push(piece);
        i = i + 1;
    }
    proof {
        assert(it@.skip(n as int) =~= Seq::<ContentV>::empty());
        assert(crate::text::seq_views(parts@) + Seq::<Seq<char>>::empty() =~= crate::text::seq_views(
            parts@,
        ));
    }
    let mut nl: Vec<char> = Vec::new();
    nl.push('\n');
    proof {
        assert(nl@ =~= seq!['\n']);
    }
    join_chars(&parts, &nl)
}

fn render_list_chars(l: &List, ind: &Vec<char>, Ghost(depth): Ghost<nat>) -> (r: Vec<char>)
    requires
        depth >= 1,
        ind@ == indent_seq((depth - 1) as nat),
    ensures
        r@ == render_list(l@, depth),
    decreases l,
{
    let ordered = match l.style {
        ListType::Ordered => true,
        ListType::Unordered => false,
    };
    let mut unord_ind = copy_chars(ind);
    unord_ind.push('-');
    unord_ind.push('-');
    proof {
        lemma_indent_seq_chars((depth - 1) as nat);
        lemma_indent_seq_chars(depth);
        assert(unord_ind@ =~= indent_seq(depth));
    }
    let n = l.items.len();
    let mut lines: Vec<Vec<char>> = Vec::new();
    let mut i: usize = 0;
    proof {
        assert(l@.items.skip(0) =~= l@.items);
        assert(crate::text::seq_views(lines@) =~= Seq::<Seq<char>>::empty());
        assert(Seq::<Seq<char>>::empty() + item_lines(l@.items, l@.style, depth, 1)
            =~= item_lines(l@.items, l@.style, depth, 1));
    }
    while i < n
        invariant
            i <= n,
            n == l.items@.len(),
            depth >= 1,
            ind@ == indent_seq((depth - 1) as nat),
            unord_ind@ == indent_seq(depth),
            ordered == (l@.style is Ordered),
            l@.style == l.style,
            l@.items == crate::ir::items_view(l.items@),
            item_lines(l@.items, l@.style, depth, 1) == crate::text::seq_views(lines@)
                + item_lines(l@.items.skip(i as int), l@.style, depth, (i + 1) as nat),
        decreases n - i,
    {
        let item = render_item_chars(&l.items[i], ind, Ghost(depth));
        let mut line: Vec<char> = Vec::new();
        if ordered {
            crate::group_lines::push_all(&mut line, ind);
            let digits = crate::text::usize_dec(i + 1);
            crate::group_lines::push_all(&mut line, &digits);
            line.push(')');
            line.push(' ');
            crate::group_lines::push_all(&mut line, &item);
            proof {
                assert(line@ =~= indent_seq((depth - 1) as nat) + dec_rep((i + 1) as nat) + seq![
                    ')',
                    ' ',
                ] + item@);
            }
        } else {
            crate::group_lines::push_all(&mut line, &unord_ind);
            line.push(' ');
            crate::group_lines::push_all(&mut line, &item);
            proof {
                assert(line@ =~= indent_seq(depth) + seq![' '] + item@);
            }
        }
        proof {
            let its = l@.items;
            assert(its.skip(i as int)[0] == its[i as int]);
            assert(its[i as int] == crate::ir::item_view(l.items@[i as int]));
            assert(its.skip(i as int).drop_first() =~= its.skip(i + 1));
            assert(render_item(crate::ir::item_view(l.items@[i as int]), depth) == join_with(
                content_parts(its[i as int], depth),
                seq!['\n'],
            ));
            let views = crate::text::seq_views(lines@);
            assert(crate::text::seq_views(lines@.push(line)) =~= views.push(line@));
            assert(views + (seq![line@] + item_lines(its.skip(i + 1), l@.style, depth, (i
                + 2) as nat)) =~= views.push(line@) + item_lines(
                its.skip(i + 1),
                l@.style,
                depth,
                (i + 2) as nat,
            ));
        }
        lines.push(line);
        i = i + 1;
    }
    proof {
        assert(l@.items.skip(n as int) =~= Seq::<Seq<ContentV>>::empty());
        assert(crate::text::seq_views(lines@) + Seq::<Seq<char>>::empty()
            =~= crate::text::seq_views(lines@));
    }
    let mut nl: Vec<char> = Vec::new();
    nl.push('\n');
    proof {
        assert(nl@ =~= seq!['\n']);
    }
    join_chars(&lines, &nl)
}

fn render_row_chars(row: &TableRow) -> (r: Vec<char>)
    ensures
        r@ == render_row(row@),
{
    let n = row.columns.len();
    let mut cells: Vec<Vec<char>> = Vec::new();
    let mut i: usize = 0;
    proof {
        assert(row@.skip(0) =~= row@);
        assert(crate::text::seq_views(cells@) =~= Seq::<Seq<char>>::empty());
        assert(Seq::<Seq<char>>::empty() + render_cells(row@) =~= render_cells(row@));
    }
    while i < n
        invariant
            i <= n,
            n == row.columns@.len(),
            row@ == crate::ir::cells_view(row.columns@),
            render_cells(row@) == crate::text::seq_views(cells@) + render_cells(
                row@.skip(i as int),
            ),
        decreases n - i,
    {
        let piece = render_block_chars(&row.columns[i].0);
        proof {
            assert(row@.skip(i as int)[0] == row@[i as int]);
            assert(row@[i as int] == crate::ir::cell_view(row.columns@[i as int]));
            assert(row@.skip(i as int).drop_first() =~= row@.skip(i + 1));
            let views = crate::text::seq_views(cells@);
            assert(crate::text::seq_views(cells@.push(piece)) =~= views.push(piece@));
            assert(views + (seq![render_runs(row@[i as int])] + render_cells(row@.skip(i + 1)))
                =~= views.push(render_runs(row@[i as int])) + render_cells(row@.skip(i + 1)));
        }
        cells.push(piece);
        i = i + 1;
    }
    proof {
        assert(row@.skip(n as int) =~= Seq::<Seq<RunV>>::empty());
        assert(crate::text::seq_views(cells@) + Seq::<Seq<char>>::empty()
            =~= crate::text::seq_views(cells@));
    }
    let mut sep: Vec<char> = Vec::new();
    sep.push(' ');
    sep.push('|');
    sep.push(' ');
    proof {
        assert(sep@ =~= seq![' ', '|', ' ']);
    }
    join_chars(&cells, &sep)
}

fn rule_chars() -> (r: Vec<char>)
    ensures
        r@ == table_rule(),
{
    let mut r: Vec<char> = Vec::new();
    r.push('-');
    r.push('-');
    r.push('-');
    r.push('-');
    r.push('-');
    proof {
        assert(r@ =~= table_rule());
    }
    r
}

fn render_table_chars(t: &Table) -> (r: Vec<char>)
    ensures
        r@ == render_table(t@),
{
    let n = t.body.len();
    let mut rows: Vec<Vec<char>> = Vec::new();
    let mut i: usize = 0;
    proof {
        assert(t@.body.skip(0) =~= t@.body);
        assert(crate::text::seq_views(rows@) =~= Seq::<Seq<char>>::empty());
        assert(Seq::<Seq<char>>::empty() + render_rows(t@.body) =~= render_rows(t@.body));
    }
    while i < n
        invariant
            i <= n,
            n == t.body@.len(),
            t@.body == crate::ir::rows_view(t.body@),
            render_rows(t@.body) == crate::text::seq_views(rows@) + render_rows(
                t@.body.skip(i as int),
            ),
        decreases n - i,
    {
        let piece = render_row_chars(&t.body[i]);
        proof {
            assert(t@.body.skip(i as int)[0] == t@.body[i as int]);
            assert(t@.body[i as int] == crate::ir::row_view(t.body@[i as int]));
            assert(t@.body.skip(i as int).drop_first() =~= t@.body.skip(i + 1));
            let views = crate::text::seq_views(rows@);
            assert(crate::text::seq_views(rows@.push(piece)) =~= views.push(piece@));
            assert(views + (seq![render_row(t@.body[i as int])] + render_rows(t@.body.skip(i + 1)))
                =~= views.push(render_row(t@.body[i as int])) + render_rows(t@.body.skip(i + 1)));
        }
        rows.push(piece);
        i = i + 1;
    }
    proof {
        assert(t@.body.skip(n as int) =~= Seq::<Seq<Seq<RunV>>>::empty());
        assert(crate::text::seq_views(rows@) + Seq::<Seq<char>>::empty() =~= crate::text::seq_views(
            rows@,
        ));
    }
    let mut nl: Vec<char> = Vec::new();
    nl.push('\n');
    proof {
        assert(nl@ =~= seq!['\n']);
    }
    let body = join_chars(&rows, &nl);
    let mut r: Vec<char> = Vec::new();
    match (&t.header, &t.footer) {
        (Some(h), Some(f)) => {
            let hr = render_row_chars(h);
            let fr = render_row_chars(f);
            let rule = rule_chars();
            crate::group_lines::push_all(&mut r, &hr);
            r.push('\n');
            crate::group_lines::push_all(&mut r, &rule);
            r.push('\n');
            crate::group_lines::push_all(&mut r, &body);
            r.push('\n');
            crate::group_lines::push_all(&mut r, &rule);
            r.push('\n');
            crate::group_lines::push_all(&mut r, &fr);
            proof {
                assert(r@ =~= render_table(t@));
            }
        },
        (None, Some(f)) => {
            let fr = render_row_chars(f);
            let rule = rule_chars();
            crate::group_lines::push_all(&mut r, &body);
            r.push('\n');
            crate::group_lines::push_all(&mut r, &rule);
            r.push('\n');
            crate::group_lines::push_all(&mut r, &fr);
            proof {
                assert(r@ =~= render_table(t@));
            }
        },
        (Some(h), None) => {
            let hr = render_row_chars(h);
            let rule = rule_chars();
            crate::group_lines::push_all(&mut r, &hr);
            r.push('\n');
            crate::group_lines::push_all(&mut r, &rule);
            r.push('\n');
            crate::group_lines::push_all(&mut r, &body);
            proof {
                assert(r@ =~= render_table(t@));
            }
        },
        (None, None) => {
            crate::group_lines::push_all(&mut r, &body);
            proof {
                assert(r@ =~= render_table(t@));
            }
        },
    }
    r
}

fn render_ir_chars(x: &IR) -> (r: Vec<char>)
    ensures
        r@ == render_ir(x@),
{
    match x {
        IR::Img(src) => {
            let mut r: Vec<char> = Vec::new();
            r.push('<');
            r.push('i');
            r.push('m');
            r.push('g');
            r.push(' ');
            r.push('s');
            r.push('r');
            r.push('c');
            r.push('=');
            r.push('"');
            let s = crate::text::string_to_chars(src.as_str());
            crate::group_lines::push_all(&mut r, &s);
            r.push('"');
            r.push(' ');
            r.push('/');
            r.push('>');
            r.push('\n');
            proof {
                assert(r@ =~= render_ir(x@));
            }
            r
        },
        IR::Pre(text) => {
            let mut r: Vec<char> = Vec::new();
            r.push('`');
            r.push('`');
            r.push('`');
            let s = crate::text::string_to_chars(text.as_str());
            crate::group_lines::push_all(&mut r, &s);
            r.push('`');
            r.push('`');
            r.push('`');
            r.push('\n');
            r.push('\n');
            proof {
                assert(r@ =~= render_ir(x@));
            }
            r
        },
        IR::Par(b) => {
            let mut r = render_block_chars(b);
            r.push('\n');
            r.push('\n');
            proof {
                assert(r@ =~= render_ir(x@));
            }
            r
        },
        IR::List(l) => {
            let ind: Vec<char> = Vec::new();
            proof {
                assert(ind@ =~= indent_seq(0));
            }
            let mut r = render_list_chars(l, &ind, Ghost(1));
            r.push('\n');
            r.push('\n');
            proof {
                assert(r@ =~= render_ir(x@));
            }
            r
        },
        IR::Table(t) => {
            let mut r = render_table_chars(t);
            r.push('\n');
            r.push('\n');
            proof {
                assert(r@ =~= render_ir(x@));
            }
            r
        },
        IR::Header(_level, text) => {
            let mut r = crate::text::string_to_chars(text.as_str());
            r.push('\n');
            r.push('\n');
            proof {
                assert(r@ =~= render_ir(x@));
            }
            r
        },
    }
}

/// Renders a whole document and trims surrounding whitespace.
pub fn convert(document: Document) -> (r: String)
    ensures
        r@ == render_document(document@),
{
    let n = document.children.len();
    let mut out: Vec<char> = Vec::new();
    let mut i: usize = 0;
    proof {
        assert(document@.skip(0) =~= document@);
        assert(out@ + render_irs(document@) =~= render_irs(document@));
    }
    while i < n
        invariant
            i <= n,
            n == document.children@.len(),
            document@ == crate::ir::irs_view(document.children@),
            render_irs(document@) == out@ + render_irs(document@.skip(i as int)),
        decreases n - i,
    {
        let piece = render_ir_chars(&document.children[i]);
        proof {
            assert(document@.skip(i as int)[0] == document@[i as int]);
            assert(document@[i as int] == crate::ir::ir_view(document.children@[i as int]));
            assert(document@.skip(i as int).drop_first() =~= document@.skip(i + 1));
            assert(out@ + (render_ir(document@[i as int]) + render_irs(document@.skip(i + 1)))
                =~= (out@ + render_ir(document@[i as int])) + render_irs(document@.skip(i + 1)));
        }
        crate::group_lines::push_all(&mut out, &piece);
        i = i + 1;
    }
    proof {
        assert(document@.skip(n as int) =~= Seq::<IRV>::empty());
        assert(out@ + Seq::<char>::empty() =~= out@);
    }
    let trimmed = crate::text::trim_chars(&out);
    crate::text::chars_to_string(&trimmed)
}

/// Rendering to the flashcard markup dialect.
pub trait ToAnki: Sized {
    spec fn rendered(self) -> Seq<char>;

    fn to_anki(self) -> (r: String)
        ensures
            r@ == self.rendered(),
    ;
}

/// Rendering at a list-nesting depth, counted from 1 at the top level.
pub trait ToAnkiWithDepth: Sized {
    spec fn rendered_at(self, depth: nat) -> Seq<char>;

    fn to_anki(self, depth: usize) -> (r: String)
        requires
            depth >= 1,
        ensures
            r@ == self.rendered_at(depth as nat),
    ;
}

impl ToAnki for Text {
    open spec fn rendered(self) -> Seq<char> {
        render_run(self@)
    }

    fn to_anki(self) -> (r: String) {
        let v = render_run_chars(&self);
        crate::text::chars_to_string(&v)
    }
}

impl ToAnki for TextBlock {
    open spec fn rendered(self) -> Seq<char> {
        render_runs(self@)
    }

    fn to_anki(self) -> (r: String) {
        let v = render_block_chars(&self);
        crate::text::chars_to_string(&v)
    }
}

impl ToAnki for TableCell {
    open spec fn rendered(self) -> Seq<char> {
        render_runs(self@)
    }

    fn to_anki(self) -> (r: String) {
        let v = render_block_chars(&self.0);
        crate::text::chars_to_string(&v)
    }
}

impl ToAnki for TableRow {
    open spec fn rendered(self) -> Seq<char> {
        render_row(self@)
    }

    fn to_anki(self) -> (r: String) {
        let v = render_row_chars(&self);
        crate::text::chars_to_string(&v)
    }
}

impl ToAnki for Table {
    open spec fn rendered(self) -> Seq<char> {
        render_table(self@)
    }

    fn to_anki(self) -> (r: String) {
        let v = render_table_chars(&self);
        crate::text::chars_to_string(&v)
    }
}

impl ToAnki for IR {
    open spec fn rendered(self) -> Seq<char> {
        render_ir(self@)
    }

    fn to_anki(self) -> (r: String) {
        let v = render_ir_chars(&self);
        crate::text::chars_to_string(&v)
    }
}

impl ToAnkiWithDepth for ListContent {
    open spec fn rendered_at(self, depth: nat) -> Seq<char> {
        render_content(self@, depth)
    }

    fn to_anki(self, depth: usize) -> (r: String) {
        let ind = make_indent(depth - 1);
        let v = render_content_chars(&self, &ind, Ghost(depth as nat));
        crate::text::chars_to_string(&v)
    }
}

impl ToAnkiWithDepth for ListItem {
    open spec fn rendered_at(self, depth: nat) -> Seq<char> {
        render_item(self@, depth)
    }

    fn to_anki(self, depth: usize) -> (r: String) {
        let ind = make_indent(depth - 1);
        let v = render_item_chars(&self, &ind, Ghost(depth as nat));
        crate::text::chars_to_string(&v)
    }
}

impl ToAnkiWithDepth for List {
    open spec fn rendered_at(self, depth: nat) -> Seq<char> {
        render_list(self@, depth)
    }

    fn to_anki(self, depth: usize) -> (r: String) {
        let ind = make_indent(depth - 1);
        let v = render_list_chars(&self, &ind, Ghost(depth as nat));
        crate::text::chars_to_string(&v)
    }
}

/// Rule placement: a table with header `h`, body rows `r1, r2` and footer `f`
/// renders with exactly one rule line after the header and one before the
/// footer; omitting either omits exactly that rule, and omitting both leaves
/// the bare body.
pub proof fn lemma_table_rule_placement(
    h: Seq<Seq<RunV>>,
    r1: Seq<Seq<RunV>>,
    r2: Seq<Seq<RunV>>,
    f: Seq<Seq<RunV>>,
)
    ensures
        render_table(
            TableV {
                header: Option::Some(h),
                body: seq![r1, r2],
                footer: Option::Some(f),
            },
        ) == render_row(h) + seq!['\n'] + table_rule() + seq!['\n'] + (render_row(r1) + seq!['\n']
            + render_row(r2)) + seq!['\n'] + table_rule() + seq!['\n'] + render_row(f),
        render_table(TableV { header: Option::Some(h), body: seq![r1, r2], footer: Option::None })
            == render_row(h) + seq!['\n'] + table_rule() + seq!['\n'] + (render_row(r1) + seq!['\n']
            + render_row(r2)),
        render_table(TableV { header: Option::None, body: seq![r1, r2], footer: Option::Some(f) })
            == (render_row(r1) + seq!['\n'] + render_row(r2)) + seq!['\n'] + table_rule() + seq![
            '\n',
        ] + render_row(f),
        render_table(TableV { header: Option::None, body: seq![r1, r2], footer: Option::None }) == (
        render_row(r1) + seq!['\n'] + render_row(r2)),
{
    let body = seq![r1, r2];
    assert(body[0] == r1);
    assert(body.drop_first() =~= seq![r2]);
    assert(seq![r2][0] == r2);
    assert(seq![r2].drop_first() =~= Seq::<Seq<Seq<RunV>>>::empty());
    assert(render_rows(Seq::<Seq<Seq<RunV>>>::empty()) =~= Seq::<Seq<char>>::empty());
    assert(render_rows(seq![r2]) =~= seq![render_row(r2)]);
    assert(render_rows(body) =~= seq![render_row(r1)] + render_rows(seq![r2]));
    assert(render_rows(body) =~= seq![render_row(r1), render_row(r2)]);
    let rr = render_rows(body);
    assert(rr.len() == 2);
    assert(rr[0] == render_row(r1));
    assert(rr.drop_first() =~= seq![render_row(r2)]);
    assert(join_with(seq![render_row(r2)], seq!['\n']) == render_row(r2));
    assert(join_with(rr, seq!['\n']) == rr[0] + seq!['\n'] + join_with(rr.drop_first(), seq![
        '\n',
    ]));
}

} // verus!
