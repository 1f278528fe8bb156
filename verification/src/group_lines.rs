//! Text reflow: soft-wrapped lines within a blank-line-delimited group are
//! joined into one line (a trailing hyphen joins without a space), groups are
//! re-emitted separated by blank lines, and whitespace-only groups vanish.

use crate::text::{
    cat_with_suffix, chars_to_string, lemma_split_len, seq_views, split_chars, split_spec,
    string_to_chars, trim_chars, trim_spec,
};
use vstd::prelude::*;

verus! {

pub open spec fn nl_seq() -> Seq<char> {
    seq!['\n']
}

pub open spec fn nlnl_seq() -> Seq<char> {
    seq!['\n', '\n']
}

/// What `str::lines` yields: pieces between newlines, without a final empty
/// piece.  A carriage return before a newline survives here; every caller
/// trims each line, which removes it, as `str::lines` would have.
pub open spec fn lines_spec(s: Seq<char>) -> Seq<Seq<char>> {
    let parts = split_spec(s, nl_seq());
    if s.len() == 0 {
        Seq::empty()
    } else if parts.last().len() == 0 {
        parts.drop_last()
    } else {
        parts
    }
}

/// One folding step: the accumulator and the next line, both trimmed; a
/// trailing hyphen joins the line directly, otherwise a single space joins.
pub open spec fn mts_step(acc: Seq<char>, x: Seq<char>) -> Seq<char> {
    let a = trim_spec(acc);
    let t = trim_spec(x);
    if a.len() == 0 {
        t
    } else if a.last() == '-' {
        a.drop_last() + t
    } else {
        a + seq![' '] + t
    }
}

pub open spec fn mts_fold(acc: Seq<char>, ls: Seq<Seq<char>>) -> Seq<char>
    decreases ls.len(),
{
    if ls.len() == 0 {
        acc
    } else {
        mts_fold(mts_step(acc, ls[0]), ls.drop_first())
    }
}

/// One group of soft-wrapped lines joined into a single trimmed line.
pub open spec fn multi_to_single_spec(s: Seq<char>) -> Seq<char> {
    trim_spec(mts_fold(Seq::empty(), lines_spec(s)))
}

/// Every line trimmed, each followed by one newline.
pub open spec fn trimmed_lines(s: Seq<char>) -> Seq<Seq<char>> {
    lines_spec(s).map_values(|l: Seq<char>| trim_spec(l))
}

pub open spec fn trimmed_lines_joined(s: Seq<char>) -> Seq<char> {
    cat_with_suffix(trimmed_lines(s), nl_seq())
}

/// Each group joined to a single line, with the whitespace-only ones dropped.
pub open spec fn kept_groups(gs: Seq<Seq<char>>) -> Seq<Seq<char>> {
    gs.map_values(|g: Seq<char>| multi_to_single_spec(g)).filter(|g: Seq<char>| g.len() > 0)
}

pub open spec fn reflow_groups(s: Seq<char>) -> Seq<Seq<char>> {
    kept_groups(split_spec(trimmed_lines_joined(s), nlnl_seq()))
}

/// What reflowing a text returns: the surviving groups, blank-line
/// separated, with no trailing whitespace.
pub open spec fn group_lines_spec(s: Seq<char>) -> Seq<char> {
    crate::text::trim_end_spec(cat_with_suffix(reflow_groups(s), nlnl_seq()))
}

pub fn push_all(dst: &mut Vec<char>, src: &Vec<char>)
    ensures
        final(dst)@ == old(dst)@ + src@,
{
    let n = src.len();
    let mut i: usize = 0;
    while i < n
        invariant
            i <= n,
            n == src@.len(),
            dst@ == old(dst)@ + src@.subrange(0, i as int),
        decreases n - i,
    {
        let c = src[i];
        dst.push(c);
        proof {
            assert(old(dst)@ + src@.subrange(0, i + 1) =~= (old(dst)@ + src@.subrange(
                0,
                i as int,
            )).push(src@[i as int]));
        }
        i = i + 1;
    }
    proof {
        assert(src@.subrange(0, n as int) =~= src@);
    }
}

fn nl_vec() -> (r: Vec<char>)
    ensures
        r@ == nl_seq(),
{
    let mut r: Vec<char> = Vec::new();
    r.push('\n');
    proof {
        assert(r@ =~= nl_seq());
    }
    r
}

fn nlnl_vec() -> (r: Vec<char>)
    ensures
        r@ == nlnl_seq(),
{
    let mut r: Vec<char> = Vec::new();
    r.push('\n');
    r.push('\n');
    proof {
        assert(r@ =~= nlnl_seq());
    }
    r
}

pub fn lines_chars(v: &Vec<char>) -> (r: Vec<Vec<char>>)
    ensures
        seq_views(r@) == lines_spec(v@),
{
    if v.len() == 0 {
        let r: Vec<Vec<char>> = Vec::new();
        proof {
            assert(seq_views(r@) =~= Seq::<Seq<char>>::empty());
        }
        return r;
    }
    let sep = nl_vec();
    let mut parts = split_chars(v, &sep);
    proof {
        lemma_split_len(v@, nl_seq());
    }
    if parts[parts.len() - 1].len() == 0 {
        proof {
            assert(seq_views(parts@).last() == parts@.last()@);
            assert(seq_views(parts@.drop_last()) =~= seq_views(parts@).drop_last());
        }
        let _dropped = parts.pop();
        proof {
            assert(seq_views(parts@) == lines_spec(v@));
        }
    } else {
        proof {
            assert(seq_views(parts@).last() == parts@.last()@);
        }
    }
    parts
}

fn mts_step_chars(acc: Vec<char>, x: &Vec<char>) -> (r: Vec<char>)
    ensures
        r@ == mts_step(acc@, x@),
{
    let mut a = trim_chars(&acc);
    let t = trim_chars(x);
    if a.len() == 0 {
        t
    } else if a[a.len() - 1] == '-' {
        let _popped = a.pop();
        push_all(&mut a, &t);
        a
    } else {
        a.push(' ');
        proof {
            assert(trim_spec(acc@).push(' ') =~= trim_spec(acc@) + seq![' ']);
        }
        push_all(&mut a, &t);
        a
    }
}

fn multi_to_single_chars(v: &Vec<char>) -> (r: Vec<char>)
    ensures
        r@ == multi_to_single_spec(v@),
{
    let ls = lines_chars(v);
    let n = ls.len();
    let mut acc: Vec<char> = Vec::new();
    let mut i: usize = 0;
    proof {
        assert(seq_views(ls@).skip(0) =~= seq_views(ls@));
    }
    while i < n
        invariant
            i <= n,
            n == ls@.len(),
            seq_views(ls@) == lines_spec(v@),
            mts_fold(Seq::empty(), lines_spec(v@)) == mts_fold(
                acc@,
                seq_views(ls@).skip(i as int),
            ),
        decreases n - i,
    {
        proof {
            assert(seq_views(ls@).skip(i as int)[0] == seq_views(ls@)[i as int]);
            assert(seq_views(ls@)[i as int] == ls@[i as int]@);
            assert(seq_views(ls@).skip(i as int).drop_first() =~= seq_views(ls@).skip(i + 1));
        }
        acc = mts_step_chars(acc, &ls[i]);
        i = i + 1;
    }
    proof {
        assert(seq_views(ls@).skip(n as int) =~= Seq::<Seq<char>>::empty());
    }
    trim_chars(&acc)
}

/// Joins the soft-wrapped lines of one group into a single trimmed line.
pub fn multi_to_single(lines: &str) -> (r: String)
    ensures
        r@ == multi_to_single_spec(lines@),
{
    let v = string_to_chars(lines);
    let joined = multi_to_single_chars(&v);
    chars_to_string(&joined)
}

proof fn lemma_kept_groups_push(gs: Seq<Seq<char>>, g: Seq<char>)
    ensures
        multi_to_single_spec(g).len() > 0 ==> kept_groups(gs.push(g)) == kept_groups(gs).push(
            multi_to_single_spec(g),
        ),
        multi_to_single_spec(g).len() == 0 ==> kept_groups(gs.push(g)) == kept_groups(gs),
{
    reveal(Seq::filter);
    let f = |x: Seq<char>| multi_to_single_spec(x);
    let p = |x: Seq<char>| x.len() > 0;
    assert(gs.push(g).map_values(f) =~= gs.map_values(f).push(f(g)));
    assert(gs.map_values(f).push(f(g)).drop_last() =~= gs.map_values(f));
}

proof fn lemma_cat_suffix_push(parts: Seq<Seq<char>>, x: Seq<char>, suf: Seq<char>)
    ensures
        cat_with_suffix(parts.push(x), suf) == cat_with_suffix(parts, suf) + x + suf,
    decreases parts.len(),
{
    if parts.len() == 0 {
        assert(parts.push(x)[0] == x);
        assert(parts.push(x).drop_first() =~= Seq::<Seq<char>>::empty());
        assert(cat_with_suffix(parts, suf) + x + suf =~= x + suf);
        assert(x + suf + cat_with_suffix(Seq::<Seq<char>>::empty(), suf) =~= x + suf);
    } else {
        assert(parts.push(x)[0] == parts[0]);
        assert(parts.push(x).drop_first() =~= parts.drop_first().push(x));
        lemma_cat_suffix_push(parts.drop_first(), x, suf);
        assert(parts[0] + suf + (cat_with_suffix(parts.drop_first(), suf) + x + suf) =~= (parts[0]
            + suf + cat_with_suffix(parts.drop_first(), suf)) + x + suf);
    }
}

/// No newline anywhere in the sequence.
pub open spec fn no_nl(s: Seq<char>) -> bool {
    forall|i: int| 0 <= i < s.len() ==> s[i] != '\n'
}

proof fn lemma_match_nl(s: Seq<char>, j: int)
    ensures
        crate::text::match_at(s, nl_seq(), j) <==> (0 <= j < s.len() && s[j] == '\n'),
{
    if 0 <= j && j + 1 <= s.len() {
        if s[j] == '\n' {
            assert(s.subrange(j, j + 1) =~= nl_seq());
        }
        if crate::text::match_at(s, nl_seq(), j) {
            assert(s.subrange(j, j + 1)[0] == s[j]);
        }
    }
}

proof fn lemma_match_nlnl(s: Seq<char>, j: int)
    ensures
        crate::text::match_at(s, nlnl_seq(), j) <==> (0 <= j && j + 2 <= s.len() && s[j] == '\n'
            && s[j + 1] == '\n'),
{
    if 0 <= j && j + 2 <= s.len() {
        if s[j] == '\n' && s[j + 1] == '\n' {
            assert(s.subrange(j, j + 2) =~= nlnl_seq());
        }
        if crate::text::match_at(s, nlnl_seq(), j) {
            assert(s.subrange(j, j + 2)[0] == s[j]);
            assert(s.subrange(j, j + 2)[1] == s[j + 1]);
        }
    }
}

proof fn lemma_split_nl_elements(s: Seq<char>)
    ensures
        forall|j: int|
            0 <= j < split_spec(s, nl_seq()).len() ==> no_nl(
                #[trigger] split_spec(s, nl_seq())[j],
            ),
    decreases s.len(),
{
    let parts = split_spec(s, nl_seq());
    if s.len() == 0 {
        assert(no_nl(parts[0]));
    } else if crate::text::match_at(s, nl_seq(), 0) {
        lemma_split_nl_elements(s.skip(1));
        assert(s.skip(nl_seq().len() as int) =~= s.skip(1));
        assert forall|j: int| 0 <= j < parts.len() implies no_nl(#[trigger] parts[j]) by {
            if j == 0 {
                assert(no_nl(Seq::<char>::empty()));
            } else {
                assert(parts[j] == split_spec(s.skip(1), nl_seq())[j - 1]);
            }
        }
    } else {
        lemma_split_nl_elements(s.drop_first());
        lemma_match_nl(s, 0);
        let rest = split_spec(s.drop_first(), nl_seq());
        crate::text::lemma_split_len(s.drop_first(), nl_seq());
        assert forall|j: int| 0 <= j < parts.len() implies no_nl(#[trigger] parts[j]) by {
            if j == 0 {
                assert(parts[0] == seq![s[0]] + rest[0]);
                assert(no_nl(rest[0]));
                assert forall|i: int| 0 <= i < parts[0].len() implies parts[0][i] != '\n' by {
                    if i == 0 {
                        assert(parts[0][0] == s[0]);
                    } else {
                        assert(parts[0][i] == rest[0][i - 1]);
                    }
                }
            } else {
                assert(parts[j] == rest.drop_first()[j - 1]);
                assert(rest.drop_first()[j - 1] == rest[j]);
            }
        }
    }
}

proof fn lemma_no_nl_trim_start(s: Seq<char>)
    requires
        no_nl(s),
    ensures
        no_nl(crate::text::trim_start_spec(s)),
    decreases s.len(),
{
    if s.len() > 0 && crate::text::is_space_char(s[0]) {
        assert(no_nl(s.drop_first())) by {
            assert(forall|i: int|
                0 <= i < s.drop_first().len() ==> #[trigger] s.drop_first()[i] == s[i + 1]);
        }
        lemma_no_nl_trim_start(s.drop_first());
    }
}

proof fn lemma_no_nl_trim_end(s: Seq<char>)
    requires
        no_nl(s),
    ensures
        no_nl(crate::text::trim_end_spec(s)),
    decreases s.len(),
{
    if s.len() > 0 && crate::text::is_space_char(s.last()) {
        assert(no_nl(s.drop_last())) by {
            assert(forall|i: int|
                0 <= i < s.drop_last().len() ==> #[trigger] s.drop_last()[i] == s[i]);
        }
        lemma_no_nl_trim_end(s.drop_last());
    }
}

proof fn lemma_no_nl_trim(s: Seq<char>)
    requires
        no_nl(s),
    ensures
        no_nl(trim_spec(s)),
{
    lemma_no_nl_trim_start(s);
    lemma_no_nl_trim_end(crate::text::trim_start_spec(s));
}

proof fn lemma_trim_empty()
    ensures
        trim_spec(Seq::<char>::empty()) == Seq::<char>::empty(),
{
}

proof fn lemma_mts_fold_no_nl(acc: Seq<char>, ls: Seq<Seq<char>>)
    requires
        no_nl(acc),
        forall|j: int| 0 <= j < ls.len() ==> no_nl(#[trigger] ls[j]),
    ensures
        no_nl(mts_fold(acc, ls)),
    decreases ls.len(),
{
    if ls.len() > 0 {
        let stepped = mts_step(acc, ls[0]);
        assert(no_nl(stepped)) by {
            lemma_no_nl_trim(acc);
            lemma_no_nl_trim(ls[0]);
            let a = trim_spec(acc);
            let t = trim_spec(ls[0]);
            if a.len() == 0 {
            } else if a.last() == '-' {
                assert forall|i: int| 0 <= i < stepped.len() implies stepped[i] != '\n' by {
                    if i < a.len() - 1 {
                        assert(stepped[i] == a[i]);
                    } else {
                        assert(stepped[i] == t[i - (a.len() - 1)]);
                    }
                }
            } else {
                assert forall|i: int| 0 <= i < stepped.len() implies stepped[i] != '\n' by {
                    if i < a.len() {
                        assert(stepped[i] == a[i]);
                    } else if i == a.len() {
                        assert(stepped[i] == ' ');
                    } else {
                        assert(stepped[i] == t[i - a.len() - 1]);
                    }
                }
            }
        }
        assert(forall|j: int|
            0 <= j < ls.drop_first().len() ==> no_nl(#[trigger] ls.drop_first()[j]));
        lemma_mts_fold_no_nl(stepped, ls.drop_first());
    }
}

/// A joined group holds no newline and is trimmed at both ends, whatever the
/// group held.
proof fn lemma_mts_shape(g: Seq<char>)
    ensures
        no_nl(multi_to_single_spec(g)),
        crate::text::is_trimmed(multi_to_single_spec(g)),
{
    lemma_split_nl_elements(g);
    let ls = lines_spec(g);
    assert(forall|j: int| 0 <= j < ls.len() ==> no_nl(#[trigger] ls[j])) by {
        let parts = split_spec(g, nl_seq());
        assert(forall|j: int| 0 <= j < ls.len() ==> ls[j] == parts[j]);
    }
    lemma_mts_fold_no_nl(Seq::empty(), ls);
    lemma_no_nl_trim(mts_fold(Seq::empty(), ls));
    crate::text::lemma_trim_is_trimmed(mts_fold(Seq::empty(), ls));
}

proof fn lemma_mts_empty()
    ensures
        multi_to_single_spec(Seq::<char>::empty()) == Seq::<char>::empty(),
{
    lemma_trim_empty();
}

/// Every surviving group is nonempty, newline-free and trimmed.
proof fn lemma_kept_groups_shape(gs: Seq<Seq<char>>)
    ensures
        forall|j: int|
            0 <= j < kept_groups(gs).len() ==> {
                &&& (#[trigger] kept_groups(gs)[j]).len() > 0
                &&& no_nl(kept_groups(gs)[j])
                &&& crate::text::is_trimmed(kept_groups(gs)[j])
            },
    decreases gs.len(),
{
    reveal(Seq::filter);
    if gs.len() == 0 {
        assert(gs.map_values(|g: Seq<char>| multi_to_single_spec(g)) =~= Seq::<Seq<char>>::empty());
    } else {
        let u = gs.drop_last();
        let x = gs.last();
        assert(gs =~= u.push(x));
        lemma_kept_groups_push(u, x);
        lemma_kept_groups_shape(u);
        lemma_mts_shape(x);
        if multi_to_single_spec(x).len() > 0 {
            assert forall|j: int| 0 <= j < kept_groups(gs).len() implies {
                &&& (#[trigger] kept_groups(gs)[j]).len() > 0
                &&& no_nl(kept_groups(gs)[j])
                &&& crate::text::is_trimmed(kept_groups(gs)[j])
            } by {
                if j < kept_groups(gs).len() - 1 {
                    assert(kept_groups(gs)[j] == kept_groups(u)[j]);
                }
            }
        }
    }
}

/// A group list with a blank line after each group, in alternation.
pub open spec fn interleave_blanks(fs: Seq<Seq<char>>) -> Seq<Seq<char>>
    decreases fs.len(),
{
    if fs.len() == 0 {
        Seq::empty()
    } else if fs.len() == 1 {
        seq![fs[0]]
    } else {
        seq![fs[0], Seq::<char>::empty()] + interleave_blanks(fs.drop_first())
    }
}

proof fn lemma_interleave_last(fs: Seq<Seq<char>>)
    requires
        fs.len() >= 1,
    ensures
        interleave_blanks(fs).len() >= 1,
        interleave_blanks(fs).last() == fs.last(),
    decreases fs.len(),
{
    if fs.len() > 1 {
        lemma_interleave_last(fs.drop_first());
        assert(interleave_blanks(fs).last() == interleave_blanks(fs.drop_first()).last());
        assert(fs.drop_first().last() == fs.last());
    }
}

proof fn lemma_join_last(fs: Seq<Seq<char>>, sep: Seq<char>)
    requires
        fs.len() >= 1,
        fs.last().len() >= 1,
    ensures
        crate::text::join_with(fs, sep).len() >= 1,
        crate::text::join_with(fs, sep).last() == fs.last().last(),
    decreases fs.len(),
{
    if fs.len() == 1 {
    } else {
        lemma_join_last(fs.drop_first(), sep);
        assert(fs.drop_first().last() == fs.last());
        let tail = crate::text::join_with(fs.drop_first(), sep);
        let whole = fs[0] + sep + tail;
        assert(whole.last() == tail.last());
    }
}

/// Splitting a newline-joined list of newline-free pieces on single newlines
/// recovers the pieces, blank lines between them.
proof fn lemma_split_join_nl(fs: Seq<Seq<char>>)
    requires
        fs.len() >= 1,
        forall|i: int| 0 <= i < fs.len() ==> no_nl(#[trigger] fs[i]),
    ensures
        split_spec(crate::text::join_with(fs, nlnl_seq()), nl_seq()) == interleave_blanks(fs),
    decreases fs.len(),
{
    let r = crate::text::join_with(fs, nlnl_seq());
    if fs.len() == 1 {
        assert forall|j: int| !crate::text::match_at(r, nl_seq(), j) by {
            lemma_match_nl(r, j);
        }
        crate::text::lemma_split_whole(r, nl_seq());
        assert(split_spec(r, nl_seq()) =~= interleave_blanks(fs));
    } else {
        let f0 = fs[0];
        let tail = crate::text::join_with(fs.drop_first(), nlnl_seq());
        assert(r == f0 + nlnl_seq() + tail);
        let cut = f0.len() as int;
        assert(r[cut] == '\n');
        lemma_match_nl(r, cut);
        assert forall|j: int| 0 <= j < cut implies !crate::text::match_at(r, nl_seq(), j) by {
            lemma_match_nl(r, j);
            assert(r[j] == f0[j]);
        }
        crate::text::lemma_split_at_first(r, nl_seq(), cut);
        assert(r.subrange(0, cut) =~= f0);
        let after = r.skip(cut + 1);
        assert(after =~= seq!['\n'] + tail);
        lemma_match_nl(after, 0);
        assert forall|j: int| 0 <= j < 0 implies !crate::text::match_at(after, nl_seq(), j) by {}
        crate::text::lemma_split_at_first(after, nl_seq(), 0);
        assert(after.subrange(0, 0) =~= Seq::<char>::empty());
        assert(after.skip(1) =~= tail);
        assert(forall|i: int|
            0 <= i < fs.drop_first().len() ==> no_nl(#[trigger] fs.drop_first()[i]));
        lemma_split_join_nl(fs.drop_first());
        assert(split_spec(r, nl_seq()) =~= seq![f0, Seq::<char>::empty()] + interleave_blanks(
            fs.drop_first(),
        ));
    }
}

proof fn lemma_interleave_trim(fs: Seq<Seq<char>>)
    requires
        forall|i: int| 0 <= i < fs.len() ==> crate::text::is_trimmed(#[trigger] fs[i]),
    ensures
        interleave_blanks(fs).map_values(|l: Seq<char>| trim_spec(l)) == interleave_blanks(fs),
    decreases fs.len(),
{
    let mapped = interleave_blanks(fs).map_values(|l: Seq<char>| trim_spec(l));
    if fs.len() == 0 {
        assert(mapped =~= interleave_blanks(fs));
    } else if fs.len() == 1 {
        crate::text::lemma_trim_of_trimmed(fs[0]);
        assert(mapped =~= interleave_blanks(fs));
    } else {
        lemma_interleave_trim(fs.drop_first());
        crate::text::lemma_trim_of_trimmed(fs[0]);
        lemma_trim_empty();
        let inner = interleave_blanks(fs.drop_first());
        assert forall|j: int| 0 <= j < mapped.len() implies mapped[j] == interleave_blanks(
            fs,
        )[j] by {
            if j >= 2 {
                assert(interleave_blanks(fs)[j] == inner[j - 2]);
                assert(inner.map_values(|l: Seq<char>| trim_spec(l))[j - 2] == trim_spec(
                    inner[j - 2],
                ));
            }
        }
        assert(mapped =~= interleave_blanks(fs));
    }
}

/// Splitting the per-line rejoin of an alternating group list on blank lines
/// recovers the groups, the last one carrying its trailing newline.
proof fn lemma_split_cat_nlnl(fs: Seq<Seq<char>>)
    requires
        fs.len() >= 1,
        forall|i: int| 0 <= i < fs.len() ==> no_nl(#[trigger] fs[i]),
    ensures
        split_spec(cat_with_suffix(interleave_blanks(fs), nl_seq()), nlnl_seq())
            == fs.drop_last().push(fs.last() + nl_seq()),
    decreases fs.len(),
{
    let j2 = cat_with_suffix(interleave_blanks(fs), nl_seq());
    if fs.len() == 1 {
        assert(interleave_blanks(fs) == seq![fs[0]]);
        assert(seq![fs[0]].drop_first() =~= Seq::<Seq<char>>::empty());
        assert(cat_with_suffix(Seq::<Seq<char>>::empty(), nl_seq()) =~= Seq::<char>::empty());
        assert(j2 =~= fs[0] + nl_seq());
        assert forall|j: int| !crate::text::match_at(j2, nlnl_seq(), j) by {
            lemma_match_nlnl(j2, j);
            if 0 <= j && j + 2 <= j2.len() {
                assert(j2[j] == fs[0][j]);
            }
        }
        crate::text::lemma_split_whole(j2, nlnl_seq());
        assert(split_spec(j2, nlnl_seq()) =~= fs.drop_last().push(fs.last() + nl_seq()));
    } else {
        let f0 = fs[0];
        let inner = interleave_blanks(fs.drop_first());
        let tail = cat_with_suffix(inner, nl_seq());
        assert(interleave_blanks(fs) == seq![f0, Seq::<char>::empty()] + inner);
        assert(j2 =~= f0 + nlnl_seq() + tail) by {
            let whole = seq![f0, Seq::<char>::empty()] + inner;
            assert(whole[0] == f0);
            assert(whole.drop_first() =~= seq![Seq::<char>::empty()] + inner);
            let second = seq![Seq::<char>::empty()] + inner;
            assert(second[0] =~= Seq::<char>::empty());
            assert(second.drop_first() =~= inner);
            assert(cat_with_suffix(second, nl_seq()) =~= Seq::<char>::empty() + nl_seq()
                + cat_with_suffix(inner, nl_seq()));
            assert(j2 =~= f0 + nl_seq() + (Seq::<char>::empty() + nl_seq() + tail));
        }
        let cut = f0.len() as int;
        assert(j2[cut] == '\n' && j2[cut + 1] == '\n');
        lemma_match_nlnl(j2, cut);
        assert forall|j: int| 0 <= j < cut implies !crate::text::match_at(j2, nlnl_seq(), j) by {
            lemma_match_nlnl(j2, j);
            assert(j2[j] == f0[j]);
        }
        crate::text::lemma_split_at_first(j2, nlnl_seq(), cut);
        assert(j2.subrange(0, cut) =~= f0);
        assert(j2.skip(cut + 2) =~= tail);
        assert(forall|i: int|
            0 <= i < fs.drop_first().len() ==> no_nl(#[trigger] fs.drop_first()[i]));
        lemma_split_cat_nlnl(fs.drop_first());
        assert(split_spec(j2, nlnl_seq()) =~= seq![f0] + fs.drop_first().drop_last().push(
            fs.drop_first().last() + nl_seq(),
        ));
        assert(seq![f0] + fs.drop_first().drop_last().push(fs.drop_first().last() + nl_seq())
            =~= fs.drop_last().push(fs.last() + nl_seq()));
    }
}

/// A nonempty, newline-free, trimmed group reflows to itself.
proof fn lemma_mts_fixed(g: Seq<char>)
    requires
        g.len() > 0,
        no_nl(g),
        crate::text::is_trimmed(g),
    ensures
        multi_to_single_spec(g) == g,
{
    assert forall|j: int| !crate::text::match_at(g, nl_seq(), j) by {
        lemma_match_nl(g, j);
    }
    crate::text::lemma_split_whole(g, nl_seq());
    let ls = lines_spec(g);
    assert(ls =~= seq![g]);
    assert(ls.drop_first() =~= Seq::<Seq<char>>::empty());
    lemma_trim_empty();
    crate::text::lemma_trim_of_trimmed(g);
    assert(mts_step(Seq::empty(), g) == g);
    assert(mts_fold(Seq::empty(), ls) == mts_fold(mts_step(Seq::empty(), ls[0]), ls.drop_first()));
    assert(mts_fold(g, Seq::<Seq<char>>::empty()) == g);
    assert(mts_fold(Seq::empty(), ls) == g);
}

/// The same, for a group carrying one trailing newline.
proof fn lemma_mts_fixed_nl(g: Seq<char>)
    requires
        g.len() > 0,
        no_nl(g),
        crate::text::is_trimmed(g),
    ensures
        multi_to_single_spec(g + nl_seq()) == g,
{
    let s = g + nl_seq();
    let cut = g.len() as int;
    assert(s[cut] == '\n');
    lemma_match_nl(s, cut);
    assert forall|j: int| 0 <= j < cut implies !crate::text::match_at(s, nl_seq(), j) by {
        lemma_match_nl(s, j);
        assert(s[j] == g[j]);
    }
    crate::text::lemma_split_at_first(s, nl_seq(), cut);
    assert(s.subrange(0, cut) =~= g);
    assert(s.skip(cut + 1) =~= Seq::<char>::empty());
    let parts = split_spec(s, nl_seq());
    assert(parts =~= seq![g, Seq::<char>::empty()]);
    let ls = lines_spec(s);
    assert(parts.last() =~= Seq::<char>::empty());
    assert(ls =~= seq![g]);
    assert(ls.drop_first() =~= Seq::<Seq<char>>::empty());
    lemma_trim_empty();
    crate::text::lemma_trim_of_trimmed(g);
    assert(mts_step(Seq::empty(), g) == g);
    assert(mts_fold(Seq::empty(), ls) == mts_fold(mts_step(Seq::empty(), ls[0]), ls.drop_first()));
    assert(mts_fold(g, Seq::<Seq<char>>::empty()) == g);
    assert(mts_fold(Seq::empty(), ls) == g);
}

/// A list of nonempty, newline-free, trimmed groups is kept verbatim.
proof fn lemma_kept_groups_fixed(gs: Seq<Seq<char>>)
    requires
        forall|j: int|
            0 <= j < gs.len() ==> {
                &&& (#[trigger] gs[j]).len() > 0
                &&& no_nl(gs[j])
                &&& crate::text::is_trimmed(gs[j])
            },
    ensures
        kept_groups(gs) == gs,
    decreases gs.len(),
{
    reveal(Seq::filter);
    if gs.len() == 0 {
        assert(gs.map_values(|g: Seq<char>| multi_to_single_spec(g)) =~= Seq::<Seq<char>>::empty());
        assert(kept_groups(gs) =~= gs);
    } else {
        let u = gs.drop_last();
        let x = gs.last();
        assert(gs =~= u.push(x));
        lemma_kept_groups_push(u, x);
        lemma_mts_fixed(x);
        assert(forall|j: int|
            0 <= j < u.len() ==> {
                &&& (#[trigger] u[j]).len() > 0
                &&& no_nl(u[j])
                &&& crate::text::is_trimmed(u[j])
            });
        lemma_kept_groups_fixed(u);
        assert(kept_groups(gs) =~= gs);
    }
}

proof fn lemma_cat_is_join_plus_suffix(fs: Seq<Seq<char>>, suf: Seq<char>)
    requires
        fs.len() >= 1,
    ensures
        cat_with_suffix(fs, suf) == crate::text::join_with(fs, suf) + suf,
    decreases fs.len(),
{
    if fs.len() == 1 {
        assert(cat_with_suffix(fs.drop_first(), suf) =~= Seq::<char>::empty());
        assert(fs[0] + suf + Seq::<char>::empty() =~= fs[0] + suf);
    } else {
        lemma_cat_is_join_plus_suffix(fs.drop_first(), suf);
        assert(fs[0] + suf + (crate::text::join_with(fs.drop_first(), suf) + suf) =~= (fs[0] + suf
            + crate::text::join_with(fs.drop_first(), suf)) + suf);
    }
}

proof fn lemma_trim_end_space_suffix(x: Seq<char>, suf: Seq<char>)
    requires
        forall|i: int| 0 <= i < suf.len() ==> crate::text::is_space_char(#[trigger] suf[i]),
    ensures
        crate::text::trim_end_spec(x + suf) == crate::text::trim_end_spec(x),
    decreases suf.len(),
{
    if suf.len() == 0 {
        assert(x + suf =~= x);
    } else {
        let whole = x + suf;
        assert(whole.last() == suf.last());
        assert(whole.drop_last() =~= x + suf.drop_last());
        assert(forall|i: int|
            0 <= i < suf.drop_last().len() ==> crate::text::is_space_char(
                #[trigger] suf.drop_last()[i],
            ));
        lemma_trim_end_space_suffix(x, suf.drop_last());
    }
}

/// Reflowing is idempotent: reflowing a reflowed text changes nothing.
pub proof fn lemma_reflow_idempotent(s: Seq<char>)
    ensures
        group_lines_spec(group_lines_spec(s)) == group_lines_spec(s),
{
    reveal(Seq::filter);
    let fs = reflow_groups(s);
    lemma_kept_groups_shape(split_spec(trimmed_lines_joined(s), nlnl_seq()));
    let r = group_lines_spec(s);
    if fs.len() == 0 {
        assert(cat_with_suffix(fs, nlnl_seq()) =~= Seq::<char>::empty());
        assert(r =~= Seq::<char>::empty());
        assert(lines_spec(r) =~= Seq::<Seq<char>>::empty());
        assert(trimmed_lines(r) =~= Seq::<Seq<char>>::empty());
        assert(trimmed_lines_joined(r) =~= Seq::<char>::empty());
        let parts = split_spec(trimmed_lines_joined(r), nlnl_seq());
        assert(parts =~= seq![Seq::<char>::empty()]);
        lemma_mts_empty();
        assert(parts.map_values(|g: Seq<char>| multi_to_single_spec(g)) =~= seq![
            Seq::<char>::empty(),
        ]);
        assert(seq![Seq::<char>::empty()].drop_last() =~= Seq::<Seq<char>>::empty());
        assert(Seq::<Seq<char>>::empty().map_values(|g: Seq<char>| multi_to_single_spec(g))
            =~= Seq::<Seq<char>>::empty());
        assert(parts.map_values(|g: Seq<char>| multi_to_single_spec(g)).drop_last() =~= Seq::<
            Seq<char>,
        >::empty());
        assert(Seq::<Seq<char>>::empty().filter(|g: Seq<char>| g.len() > 0) =~= Seq::<
            Seq<char>,
        >::empty());
        assert(parts.map_values(|g: Seq<char>| multi_to_single_spec(g)).last().len() == 0);
        assert(kept_groups(parts) =~= Seq::<Seq<char>>::empty());
        assert(reflow_groups(r) =~= fs);
    } else {
        let joined = crate::text::join_with(fs, nlnl_seq());
        lemma_cat_is_join_plus_suffix(fs, nlnl_seq());
        assert(forall|i: int|
            0 <= i < nlnl_seq().len() ==> crate::text::is_space_char(#[trigger] nlnl_seq()[i]));
        lemma_trim_end_space_suffix(joined, nlnl_seq());
        lemma_join_last(fs, nlnl_seq());
        assert(!crate::text::is_space_char(joined.last()));
        assert(crate::text::trim_end_spec(joined) == joined);
        assert(r == joined);
        lemma_split_join_nl(fs);
        lemma_interleave_last(fs);
        let il = interleave_blanks(fs);
        assert(lines_spec(r) == il) by {
            assert(r.len() >= 1);
            assert(split_spec(r, nl_seq()).last() == fs.last());
            assert(fs.last().len() > 0);
        }
        lemma_interleave_trim(fs);
        assert(trimmed_lines(r) == il);
        lemma_split_cat_nlnl(fs);
        assert(trimmed_lines_joined(r) == cat_with_suffix(il, nl_seq()));
        let expected = fs.drop_last().push(fs.last() + nl_seq());
        assert(split_spec(trimmed_lines_joined(r), nlnl_seq()) == expected);
        assert(kept_groups(expected) == fs) by {
            lemma_kept_groups_push(fs.drop_last(), fs.last() + nl_seq());
            lemma_mts_fixed_nl(fs.last());
            assert(forall|j: int|
                0 <= j < fs.drop_last().len() ==> {
                    &&& (#[trigger] fs.drop_last()[j]).len() > 0
                    &&& no_nl(fs.drop_last()[j])
                    &&& crate::text::is_trimmed(fs.drop_last()[j])
                });
            lemma_kept_groups_fixed(fs.drop_last());
            assert(kept_groups(fs.drop_last()).push(fs.last()) =~= fs);
        }
        assert(reflow_groups(r) == fs);
    }
    assert(group_lines_spec(r) == group_lines_spec(s));
}

/// Reflows a whole text: each blank-line-delimited group becomes one line,
/// whitespace-only groups are dropped, and the survivors are joined by blank
/// lines.
pub fn group_lines_file(contents: &str) -> (r: String)
    ensures
        r@ == group_lines_spec(contents@),
{
    let v = string_to_chars(contents);
    let ls = lines_chars(&v);
    let n = ls.len();
    let mut joined: Vec<char> = Vec::new();
    let mut i: usize = 0;
    proof {
        assert(trimmed_lines(v@).skip(0) =~= trimmed_lines(v@));
        assert(joined@ + cat_with_suffix(trimmed_lines(v@), nl_seq()) =~= cat_with_suffix(
            trimmed_lines(v@),
            nl_seq(),
        ));
    }
    while i < n
        invariant
            i <= n,
            n == ls@.len(),
            seq_views(ls@) == lines_spec(v@),
            trimmed_lines_joined(v@) == joined@ + cat_with_suffix(
                trimmed_lines(v@).skip(i as int),
                nl_seq(),
            ),
        decreases n - i,
    {
        let t = trim_chars(&ls[i]);
        proof {
            assert(trimmed_lines(v@).skip(i as int)[0] == trimmed_lines(v@)[i as int]);
            assert(trimmed_lines(v@)[i as int] == trim_spec(lines_spec(v@)[i as int]));
            assert(lines_spec(v@)[i as int] == ls@[i as int]@);
            assert(trimmed_lines(v@).skip(i as int).drop_first() =~= trimmed_lines(v@).skip(i + 1));
            assert(joined@ + (t@ + nl_seq() + cat_with_suffix(
                trimmed_lines(v@).skip(i + 1),
                nl_seq(),
            )) =~= ((joined@ + t@).push('\n')) + cat_with_suffix(
                trimmed_lines(v@).skip(i + 1),
                nl_seq(),
            ));
        }
        push_all(&mut joined, &t);
        joined.push('\n');
        i = i + 1;
    }
    proof {
        assert(trimmed_lines(v@).skip(n as int) =~= Seq::<Seq<char>>::empty());
        assert(joined@ + cat_with_suffix(Seq::<Seq<char>>::empty(), nl_seq()) =~= joined@);
    }
    let sep2 = nlnl_vec();
    let gs = split_chars(&joined, &sep2);
    let m = gs.len();
    let mut out: Vec<char> = Vec::new();
    let mut k: usize = 0;
    proof {
        assert(seq_views(gs@).take(0) =~= Seq::<Seq<char>>::empty());
        reveal(Seq::filter);
        assert(kept_groups(Seq::<Seq<char>>::empty()).len() == 0);
        assert(out@ =~= cat_with_suffix(kept_groups(seq_views(gs@).take(0)), nlnl_seq()));
    }
    while k < m
        invariant
            k <= m,
            m == gs@.len(),
            seq_views(gs@) == split_spec(trimmed_lines_joined(v@), nlnl_seq()),
            out@ == cat_with_suffix(kept_groups(seq_views(gs@).take(k as int)), nlnl_seq()),
        decreases m - k,
    {
        let g = multi_to_single_chars(&gs[k]);
        proof {
            assert(seq_views(gs@)[k as int] == gs@[k as int]@);
            assert(seq_views(gs@).take(k + 1) =~= seq_views(gs@).take(k as int).push(
                seq_views(gs@)[k as int],
            ));
            lemma_kept_groups_push(seq_views(gs@).take(k as int), seq_views(gs@)[k as int]);
        }
        if g.len() > 0 {
            proof {
                lemma_cat_suffix_push(
                    kept_groups(seq_views(gs@).take(k as int)),
                    g@,
                    nlnl_seq(),
                );
                assert((out@ + g@) + nlnl_seq() =~= ((out@ + g@).push('\n')).push('\n'));
            }
            push_all(&mut out, &g);
            out.push('\n');
            out.push('\n');
        }
        k = k + 1;
    }
    proof {
        assert(seq_views(gs@).take(m as int) =~= seq_views(gs@));
    }
    let trimmed = crate::text::trim_end_chars(&out);
    chars_to_string(&trimmed)
}

} // verus!
