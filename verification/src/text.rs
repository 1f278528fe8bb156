//! Character-sequence utilities: whitespace trimming, separator splitting,
//! joining, and decimal rendering, each with an exact specification.

use vstd::prelude::*;
use vstd::string::StrSliceExecFns;

verus! {

/// Whitespace as `str::trim` sees it: Unicode's White_Space set.
pub open spec fn is_space_char(c: char) -> bool {
    (c as u32) == 0x20 || ((c as u32) >= 0x9 && (c as u32) <= 0xd) || (c as u32) == 0x85 || (
    c as u32) == 0xa0 || (c as u32) == 0x1680 || ((c as u32) >= 0x2000 && (c as u32) <= 0x200a) || (
    c as u32) == 0x2028 || (c as u32) == 0x2029 || (c as u32) == 0x202f || (c as u32) == 0x205f || (
    c as u32) == 0x3000
}

pub fn is_space(c: char) -> (r: bool)
    ensures
        r == is_space_char(c),
{
    let u = c as u32;
    u == 0x20 || (u >= 0x9 && u <= 0xd) || u == 0x85 || u == 0xa0 || u == 0x1680 || (u >= 0x2000
        && u <= 0x200a) || u == 0x2028 || u == 0x2029 || u == 0x202f || u == 0x205f || u == 0x3000
}

pub open spec fn trim_start_spec(s: Seq<char>) -> Seq<char>
    decreases s.len(),
{
    if s.len() == 0 {
        s
    } else if is_space_char(s[0]) {
        trim_start_spec(s.drop_first())
    } else {
        s
    }
}

pub open spec fn trim_end_spec(s: Seq<char>) -> Seq<char>
    decreases s.len(),
{
    if s.len() == 0 {
        s
    } else if is_space_char(s.last()) {
        trim_end_spec(s.drop_last())
    } else {
        s
    }
}

/// What `str::trim` returns: the sequence with leading and trailing
/// whitespace removed.
pub open spec fn trim_spec(s: Seq<char>) -> Seq<char> {
    trim_end_spec(trim_start_spec(s))
}

/// A sequence neither starts nor ends with whitespace.
pub open spec fn is_trimmed(s: Seq<char>) -> bool {
    s.len() == 0 || (!is_space_char(s[0]) && !is_space_char(s.last()))
}

pub proof fn lemma_trim_start_skip(s: Seq<char>, i: int)
    requires
        0 <= i <= s.len(),
        forall|k: int| 0 <= k < i ==> is_space_char(s[k]),
        i == s.len() || !is_space_char(s[i]),
    ensures
        trim_start_spec(s) == s.skip(i),
    decreases i,
{
    if i == 0 {
        assert(s.skip(0) =~= s);
    } else {
        assert(is_space_char(s[0]));
        lemma_trim_start_skip(s.drop_first(), i - 1);
        assert(s.drop_first().skip(i - 1) =~= s.skip(i));
    }
}

pub proof fn lemma_trim_end_take(s: Seq<char>, i: int)
    requires
        0 <= i <= s.len(),
        forall|k: int| i <= k < s.len() ==> is_space_char(s[k]),
        i == 0 || !is_space_char(s[i - 1]),
    ensures
        trim_end_spec(s) == s.take(i),
    decreases s.len(),
{
    if i == s.len() {
        if s.len() == 0 {
            assert(s.take(i) =~= s);
        } else {
            assert(!is_space_char(s.last()));
            assert(s.take(i) =~= s);
        }
    } else {
        assert(is_space_char(s.last()));
        lemma_trim_end_take(s.drop_last(), i);
        assert(s.drop_last().take(i) =~= s.take(i));
    }
}

pub proof fn lemma_trim_of_trimmed(s: Seq<char>)
    requires
        is_trimmed(s),
    ensures
        trim_spec(s) == s,
{
    lemma_trim_start_skip(s, 0);
    assert(s.skip(0) =~= s);
    lemma_trim_end_take(s, s.len() as int);
    assert(s.take(s.len() as int) =~= s);
}

pub proof fn lemma_trim_start_is_unpadded(s: Seq<char>)
    ensures
        trim_start_spec(s).len() == 0 || !is_space_char(trim_start_spec(s)[0]),
        trim_start_spec(s).len() <= s.len(),
    decreases s.len(),
{
    if s.len() != 0 && is_space_char(s[0]) {
        lemma_trim_start_is_unpadded(s.drop_first());
    }
}

pub proof fn lemma_trim_end_is_unpadded(s: Seq<char>)
    ensures
        trim_end_spec(s).len() == 0 || !is_space_char(trim_end_spec(s).last()),
        trim_end_spec(s).len() <= s.len(),
        forall|k: int| 0 <= k < trim_end_spec(s).len() ==> trim_end_spec(s)[k] == s[k],
    decreases s.len(),
{
    if s.len() != 0 && is_space_char(s.last()) {
        lemma_trim_end_is_unpadded(s.drop_last());
        assert forall|k: int| 0 <= k < trim_end_spec(s).len() implies trim_end_spec(s)[k]
            == s[k] by {
            assert(trim_end_spec(s.drop_last())[k] == s.drop_last()[k]);
        }
    }
}

/// The result of a trim is trimmed on both sides.
pub proof fn lemma_trim_is_trimmed(s: Seq<char>)
    ensures
        is_trimmed(trim_spec(s)),
{
    lemma_trim_start_is_unpadded(s);
    lemma_trim_end_is_unpadded(trim_start_spec(s));
    let t = trim_spec(s);
    if t.len() != 0 {
        assert(t[0] == trim_start_spec(s)[0]);
    }
}

pub fn trim_chars(v: &Vec<char>) -> (r: Vec<char>)
    ensures
        r@ == trim_spec(v@),
{
    let n = v.len();
    let mut start: usize = 0;
    while start < n && is_space(v[start])
        invariant
            start <= n,
            n == v@.len(),
            forall|k: int| 0 <= k < start ==> is_space_char(v@[k]),
        decreases n - start,
    {
        start = start + 1;
    }
    let mut end: usize = n;
    while end > start && is_space(v[end - 1])
        invariant
            start <= end <= n,
            n == v@.len(),
            forall|k: int| end <= k < n ==> is_space_char(v@[k]),
        decreases end,
    {
        end = end - 1;
    }
    let mut r: Vec<char> = Vec::new();
    let mut i: usize = start;
    while i < end
        invariant
            start <= i <= end <= n,
            n == v@.len(),
            r@ == v@.subrange(start as int, i as int),
        decreases end - i,
    {
        let c = v[i];
        r.push(c);
        proof {
            assert(v@.subrange(start as int, i + 1) =~= v@.subrange(start as int, i as int).push(
                v@[i as int],
            ));
        }
        i = i + 1;
    }
    proof {
        lemma_trim_start_skip(v@, start as int);
        let suffix = v@.skip(start as int);
        assert(forall|k: int|
            end - start <= k < suffix.len() ==> is_space_char(#[trigger] suffix[k]));
        if end > start {
            assert(suffix[end - start - 1] == v@[end - 1]);
        }
        lemma_trim_end_take(suffix, end - start);
        assert(suffix.take(end - start) =~= v@.subrange(start as int, end as int));
    }
    r
}

pub fn trim_end_chars(v: &Vec<char>) -> (r: Vec<char>)
    ensures
        r@ == trim_end_spec(v@),
{
    let n = v.len();
    let mut end: usize = n;
    while end > 0 && is_space(v[end - 1])
        invariant
            end <= n,
            n == v@.len(),
            forall|k: int| end <= k < n ==> is_space_char(v@[k]),
        decreases end,
    {
        end = end - 1;
    }
    let mut r: Vec<char> = Vec::new();
    let mut i: usize = 0;
    while i < end
        invariant
            i <= end <= n,
            n == v@.len(),
            r@ == v@.subrange(0, i as int),
        decreases end - i,
    {
        let c = v[i];
        r.push(c);
        proof {
            assert(v@.subrange(0, i + 1) =~= v@.subrange(0, i as int).push(v@[i as int]));
        }
        i = i + 1;
    }
    proof {
        lemma_trim_end_take(v@, end as int);
        assert(v@.take(end as int) =~= v@.subrange(0, end as int));
    }
    r
}

/// `sep` occurs in `s` at position `i`.
pub open spec fn match_at(s: Seq<char>, sep: Seq<char>, i: int) -> bool {
    0 <= i && i + sep.len() <= s.len() && s.subrange(i, i + sep.len() as int) == sep
}

/// What `str::split` returns for a nonempty separator: the pieces between
/// the leftmost non-overlapping occurrences of `sep`.
pub open spec fn split_spec(s: Seq<char>, sep: Seq<char>) -> Seq<Seq<char>>
    decreases s.len(),
    when sep.len() >= 1
{
    if s.len() == 0 {
        seq![s]
    } else if match_at(s, sep, 0) {
        seq![Seq::<char>::empty()] + split_spec(s.skip(sep.len() as int), sep)
    } else {
        let rest = split_spec(s.drop_first(), sep);
        seq![seq![s[0]] + rest[0]] + rest.drop_first()
    }
}

pub proof fn lemma_split_len(s: Seq<char>, sep: Seq<char>)
    requires
        sep.len() >= 1,
    ensures
        split_spec(s, sep).len() >= 1,
    decreases s.len(),
{
    if s.len() == 0 {
    } else if match_at(s, sep, 0) {
        lemma_split_len(s.skip(sep.len() as int), sep);
    } else {
        lemma_split_len(s.drop_first(), sep);
    }
}

proof fn lemma_match_at_shift(s: Seq<char>, sep: Seq<char>, j: int)
    requires
        0 <= j,
        s.len() >= 1,
    ensures
        match_at(s.drop_first(), sep, j) == match_at(s, sep, j + 1),
{
    if j + 1 + sep.len() <= s.len() {
        assert(s.drop_first().subrange(j, j + sep.len() as int) =~= s.subrange(
            j + 1,
            j + 1 + sep.len() as int,
        ));
    }
}

/// Splitting at the first occurrence of the separator.
pub proof fn lemma_split_at_first(s: Seq<char>, sep: Seq<char>, i: int)
    requires
        sep.len() >= 1,
        match_at(s, sep, i),
        forall|j: int| 0 <= j < i ==> !match_at(s, sep, j),
    ensures
        split_spec(s, sep) == seq![s.subrange(0, i)] + split_spec(
            s.skip(i + sep.len() as int),
            sep,
        ),
    decreases i,
{
    if i == 0 {
        assert(s.len() >= 1);
        assert(s.subrange(0, 0) =~= Seq::<char>::empty());
        assert(seq![s.subrange(0, 0)] + split_spec(s.skip(sep.len() as int), sep) =~= seq![
            Seq::<char>::empty(),
        ] + split_spec(s.skip(sep.len() as int), sep));
    } else {
        assert(s.len() >= 1);
        assert(!match_at(s, sep, 0));
        let d = s.drop_first();
        assert forall|j: int| 0 <= j < i - 1 implies !match_at(d, sep, j) by {
            lemma_match_at_shift(s, sep, j);
        }
        lemma_match_at_shift(s, sep, i - 1);
        lemma_split_at_first(d, sep, i - 1);
        lemma_split_len(d.skip(i - 1 + sep.len() as int), sep);
        let rest = split_spec(d, sep);
        assert(rest[0] == d.subrange(0, i - 1));
        assert(seq![s[0]] + d.subrange(0, i - 1) =~= s.subrange(0, i));
        assert(d.skip(i - 1 + sep.len() as int) =~= s.skip(i + sep.len() as int));
        assert(rest.drop_first() =~= split_spec(s.skip(i + sep.len() as int), sep));
        assert(seq![seq![s[0]] + rest[0]] + rest.drop_first() =~= seq![s.subrange(0, i)]
            + split_spec(s.skip(i + sep.len() as int), sep));
    }
}

/// A sequence without the separator splits to itself alone.
pub proof fn lemma_split_whole(s: Seq<char>, sep: Seq<char>)
    requires
        sep.len() >= 1,
        forall|j: int| !match_at(s, sep, j),
    ensures
        split_spec(s, sep) == seq![s],
    decreases s.len(),
{
    if s.len() == 0 {
    } else {
        assert(!match_at(s, sep, 0));
        let d = s.drop_first();
        assert forall|j: int| !match_at(d, sep, j) by {
            if 0 <= j {
                lemma_match_at_shift(s, sep, j);
            }
        }
        lemma_split_whole(d, sep);
        assert(seq![s[0]] + d =~= s);
        assert(seq![seq![s[0]] + d] + seq![d].drop_first() =~= seq![s]);
    }
}

/// The character sequences a sequence of character vectors holds.
pub open spec fn seq_views(vs: Seq<Vec<char>>) -> Seq<Seq<char>> {
    vs.map_values(|x: Vec<char>| x@)
}

pub fn split_chars(v: &Vec<char>, sep: &Vec<char>) -> (r: Vec<Vec<char>>)
    requires
        sep@.len() >= 1,
    ensures
        seq_views(r@) == split_spec(v@, sep@),
{
    let n = v.len();
    let m = sep.len();
    let mut r: Vec<Vec<char>> = Vec::new();
    let mut cur: Vec<char> = Vec::new();
    let mut i: usize = 0;
    let mut last_cut: usize = 0;
    proof {
        lemma_split_len(v@, sep@);
        lemma_prepend_cons(cur@, split_spec(v@, sep@));
        assert(v@.skip(0) =~= v@);
        assert(seq_views(r@) =~= Seq::<Seq<char>>::empty());
        assert(Seq::<Seq<char>>::empty() + prepend_seq(cur@, split_spec(v@, sep@)) =~= prepend_seq(
            cur@,
            split_spec(v@, sep@),
        ));
        assert(cur@ =~= Seq::<char>::empty());
    }
    while i < n
        invariant
            last_cut <= i <= n,
            n == v@.len(),
            m == sep@.len(),
            m >= 1,
            cur@ == v@.subrange(last_cut as int, i as int),
            split_spec(v@, sep@) == seq_views(r@) + prepend_seq(
                cur@,
                split_spec(v@.skip(i as int), sep@),
            ),
        decreases n - i,
    {
        let mut matched: bool = m <= n && i <= n - m;
        proof {
            if !(i + m <= n) {
                assert(!match_at(v@, sep@, i as int));
            }
        }
        let mut k: usize = 0;
        while matched && k < m
            invariant
                k <= m,
                i <= n,
                n == v@.len(),
                m == sep@.len(),
                matched ==> (i + m <= n && v@.subrange(i as int, i + k) == sep@.subrange(
                    0,
                    k as int,
                )),
                !matched ==> !match_at(v@, sep@, i as int),
            decreases m - k,
        {
            if v[i + k] != sep[k] {
                proof {
                    if match_at(v@, sep@, i as int) {
                        assert(v@.subrange(i as int, i + m)[k as int] == sep@[k as int]);
                    }
                }
                matched = false;
                k = m;
            } else {
                proof {
                    assert(v@.subrange(i as int, i + k + 1) =~= v@.subrange(i as int, i + k).push(
                        v@[i + k],
                    ));
                    assert(sep@.subrange(0, k + 1) =~= sep@.subrange(0, k as int).push(
                        sep@[k as int],
                    ));
                }
                k = k + 1;
            }
        }
        if matched {
            proof {
                assert(v@.subrange(i as int, i + m) =~= sep@.subrange(0, m as int));
                assert(sep@.subrange(0, m as int) =~= sep@);
                assert(match_at(v@, sep@, i as int));
                let tail = v@.skip(i as int);
                assert(tail.subrange(0, m as int) =~= v@.subrange(i as int, i + m));
                assert(match_at(tail, sep@, 0));
                assert(tail.skip(m as int) =~= v@.skip(i + m));
                let rest = split_spec(v@.skip(i + m), sep@);
                lemma_split_len(v@.skip(i + m), sep@);
                lemma_prepend_cons(cur@, rest);
                assert(split_spec(tail, sep@) == seq![Seq::<char>::empty()] + rest);
                assert(seq_views(r@.push(cur)) =~= seq_views(r@).push(cur@));
                assert(seq_views(r@) + (seq![cur@] + rest) =~= seq_views(r@).push(cur@) + rest);
            }
            r.push(cur);
            cur = Vec::new();
            i = i + m;
            last_cut = i;
            proof {
                assert(cur@ =~= v@.subrange(last_cut as int, i as int));
                assert(prepend_seq(Seq::<char>::empty(), split_spec(v@.skip(i as int), sep@))
                    =~= split_spec(v@.skip(i as int), sep@));
            }
        } else {
            let c = v[i];
            proof {
                let tail = v@.skip(i as int);
                assert(tail.len() >= 1);
                if match_at(tail, sep@, 0) {
                    assert(tail.subrange(0, m as int) =~= v@.subrange(i as int, i + m));
                }
                assert(!match_at(tail, sep@, 0));
                assert(tail[0] == v@[i as int]);
                assert(tail.drop_first() =~= v@.skip(i + 1));
                lemma_split_len(v@.skip(i + 1), sep@);
                lemma_prepend_snoc(cur@, v@[i as int], split_spec(v@.skip(i + 1), sep@));
                assert(cur@.push(v@[i as int]) =~= v@.subrange(last_cut as int, i + 1));
            }
            cur.push(c);
            i = i + 1;
        }
    }
    proof {
        assert(v@.skip(n as int) =~= Seq::<char>::empty());
        assert(prepend_seq(cur@, split_spec(Seq::<char>::empty(), sep@)) =~= seq![cur@]);
        assert(seq_views(r@.push(cur)) =~= seq_views(r@).push(cur@));
        assert(seq_views(r@) + seq![cur@] =~= seq_views(r@).push(cur@));
    }
    r.push(cur);
    r
}

/// The first piece extended at the front with `p`.
pub open spec fn prepend_seq(p: Seq<char>, parts: Seq<Seq<char>>) -> Seq<Seq<char>> {
    seq![p + parts[0]] + parts.drop_first()
}

proof fn lemma_prepend_cons(p: Seq<char>, parts: Seq<Seq<char>>)
    requires
        parts.len() >= 1,
    ensures
        prepend_seq(p, seq![Seq::<char>::empty()] + parts) == seq![p] + prepend_seq(
            Seq::<char>::empty(),
            parts,
        ),
        prepend_seq(Seq::<char>::empty(), parts) == parts,
{
    assert((seq![Seq::<char>::empty()] + parts)[0] =~= Seq::<char>::empty());
    assert(p + (seq![Seq::<char>::empty()] + parts)[0] =~= p);
    assert(Seq::<char>::empty() + parts[0] =~= parts[0]);
    assert(prepend_seq(Seq::<char>::empty(), parts) =~= parts);
    assert((seq![Seq::<char>::empty()] + parts).drop_first() =~= parts);
    assert(prepend_seq(p, seq![Seq::<char>::empty()] + parts) =~= seq![p] + parts);
}

proof fn lemma_prepend_snoc(p: Seq<char>, c: char, parts: Seq<Seq<char>>)
    requires
        parts.len() >= 1,
    ensures
        prepend_seq(p, seq![seq![c] + parts[0]] + parts.drop_first()) == prepend_seq(
            p.push(c),
            parts,
        ),
{
    assert((seq![seq![c] + parts[0]] + parts.drop_first())[0] =~= seq![c] + parts[0]);
    assert(p + (seq![c] + parts[0]) =~= p.push(c) + parts[0]);
    assert((seq![seq![c] + parts[0]] + parts.drop_first()).drop_first() =~= parts.drop_first());
    assert(prepend_seq(p, seq![seq![c] + parts[0]] + parts.drop_first()) =~= prepend_seq(
        p.push(c),
        parts,
    ));
}

/// The pieces joined with `sep` between each pair.
pub open spec fn join_with(parts: Seq<Seq<char>>, sep: Seq<char>) -> Seq<char>
    decreases parts.len(),
{
    if parts.len() == 0 {
        Seq::empty()
    } else if parts.len() == 1 {
        parts[0]
    } else {
        parts[0] + sep + join_with(parts.drop_first(), sep)
    }
}

/// Every piece followed by the suffix, concatenated.
pub open spec fn cat_with_suffix(parts: Seq<Seq<char>>, suf: Seq<char>) -> Seq<char>
    decreases parts.len(),
{
    if parts.len() == 0 {
        Seq::empty()
    } else {
        parts[0] + suf + cat_with_suffix(parts.drop_first(), suf)
    }
}

pub open spec fn dec_digit(d: int) -> char {
    if d == 0 {
        '0'
    } else if d == 1 {
        '1'
    } else if d == 2 {
        '2'
    } else if d == 3 {
        '3'
    } else if d == 4 {
        '4'
    } else if d == 5 {
        '5'
    } else if d == 6 {
        '6'
    } else if d == 7 {
        '7'
    } else if d == 8 {
        '8'
    } else {
        '9'
    }
}

/// The decimal numeral of `n`, most significant digit first.
pub open spec fn dec_rep(n: nat) -> Seq<char>
    decreases n,
{
    if n < 10 {
        seq![dec_digit(n as int)]
    } else {
        dec_rep(n / 10) + seq![dec_digit((n % 10) as int)]
    }
}

fn digit_char(d: usize) -> (r: char)
    requires
        d < 10,
    ensures
        r == dec_digit(d as int),
{
    if d == 0 {
        '0'
    } else if d == 1 {
        '1'
    } else if d == 2 {
        '2'
    } else if d == 3 {
        '3'
    } else if d == 4 {
        '4'
    } else if d == 5 {
        '5'
    } else if d == 6 {
        '6'
    } else if d == 7 {
        '7'
    } else if d == 8 {
        '8'
    } else {
        '9'
    }
}

pub fn usize_dec(n: usize) -> (r: Vec<char>)
    ensures
        r@ == dec_rep(n as nat),
{
    let mut digits: Vec<char> = Vec::new();
    let mut m: usize = n;
    while m >= 10
        invariant
            dec_rep(n as nat) == dec_rep(m as nat) + digits@.reverse(),
        decreases m,
    {
        let d = m % 10;
        proof {
            assert(digits@.push(dec_digit((m as nat % 10) as int)).reverse() =~= seq![
                dec_digit((m as nat % 10) as int),
            ] + digits@.reverse());
            assert(dec_rep(m as nat / 10) + (seq![dec_digit((m as nat % 10) as int)]
                + digits@.reverse()) =~= (dec_rep(m as nat / 10) + seq![
                dec_digit((m as nat % 10) as int),
            ]) + digits@.reverse());
        }
        digits.push(digit_char(d));
        m = m / 10;
    }
    proof {
        assert(digits@.push(dec_digit(m as int)).reverse() =~= seq![dec_digit(m as int)]
            + digits@.reverse());
    }
    digits.push(digit_char(m));
    let mut r: Vec<char> = Vec::new();
    let mut i: usize = digits.len();
    while i > 0
        invariant
            i <= digits@.len(),
            r@ == digits@.skip(i as int).reverse(),
        decreases i,
    {
        i = i - 1;
        let c = digits[i];
        r.push(c);
        proof {
            assert(digits@.skip(i as int).reverse() =~= digits@.skip(i + 1).reverse().push(
                digits@[i as int],
            ));
        }
    }
    proof {
        assert(digits@.skip(0) =~= digits@);
    }
    r
}

/// Every character of the string, in order.
pub fn string_to_chars(s: &str) -> (r: Vec<char>)
    ensures
        r@ == s@,
{
    let n = s.unicode_len();
    let mut r: Vec<char> = Vec::new();
    let mut i: usize = 0;
    while i < n
        invariant
            i <= n,
            n == s@.len(),
            r@ == s@.subrange(0, i as int),
        decreases n - i,
    {
        let c = s.get_char(i);
        r.push(c);
        proof {
            assert(s@.subrange(0, i + 1) =~= s@.subrange(0, i as int).push(s@[i as int]));
        }
        i = i + 1;
    }
    proof {
        assert(s@.subrange(0, n as int) =~= s@);
    }
    r
}

/// Relies on `String: FromIterator<char>` via `Iterator::collect`: the
/// string of exactly these characters, in order.
#[verifier::external_body]
pub fn chars_to_string(v: &Vec<char>) -> (r: String)
    ensures
        r@ == v@,
{
    v.iter().collect()
}

/// Relies on `str`'s `PartialEq`: equality of the two character sequences.
#[verifier::external_body]
pub fn str_eq(a: &str, b: &str) -> (r: bool)
    ensures
        r == (a@ == b@),
{
    a == b
}

} // verus!
