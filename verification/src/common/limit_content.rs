//! Byte- and line-bounded text shortening. The output keeps at most a given
//! number of newline-separated lines and a given number of UTF-8 bytes, and
//! never cuts through the encoding of a character. Shortening is idempotent:
//! shortening an already shortened text with the same limits changes nothing.

use vstd::prelude::*;
use crate::text::{
    char_utf8_width, char_width, chars_to_string, lemma_encode_utf8_concat, lemma_utf8_len_push,
    str_to_chars, utf8_len, views,
};

verus! {

/// The pieces of `s` between its newline characters. A text with `k`
/// newlines has exactly `k + 1` pieces; none of them contains a newline.
pub open spec fn split_lines(s: Seq<char>) -> Seq<Seq<char>>
    decreases s.len(),
{
    if s.len() == 0 {
        seq![Seq::<char>::empty()]
    } else if s.last() == '\n' {
        split_lines(s.drop_last()).push(Seq::<char>::empty())
    } else {
        let r = split_lines(s.drop_last());
        r.update(r.len() - 1, r.last().push(s.last()))
    }
}

/// The pieces joined back together with single newlines.
pub open spec fn join_lines(ls: Seq<Seq<char>>) -> Seq<char>
    decreases ls.len(),
{
    if ls.len() == 0 {
        Seq::<char>::empty()
    } else if ls.len() == 1 {
        ls[0]
    } else {
        join_lines(ls.drop_last()) + seq!['\n'] + ls.last()
    }
}

/// A sequence free of newline characters.
pub open spec fn nl_free(p: Seq<char>) -> bool {
    forall|j: int| 0 <= j < p.len() ==> p[j] != '\n'
}

/// The longest prefix of `s` whose UTF-8 encoding fits in `cap` bytes.
pub open spec fn prefix_within(s: Seq<char>, cap: nat) -> Seq<char>
    decreases s.len(),
{
    if utf8_len(s) <= cap {
        s
    } else {
        prefix_within(s.drop_last(), cap)
    }
}

/// What `limit_string` returns: the first `max_lines` newline-joined lines
/// of `s`, shortened to the longest character prefix of at most `max_len`
/// UTF-8 bytes.
pub open spec fn limit_spec(s: Seq<char>, max_lines: nat, max_len: nat) -> Seq<char> {
    let ps = split_lines(s);
    let m = if ps.len() <= max_lines {
        ps.len() as int
    } else {
        max_lines as int
    };
    let t = join_lines(ps.take(m));
    if utf8_len(t) <= max_len {
        t
    } else {
        prefix_within(t, max_len)
    }
}

/// Splitting always yields at least one piece.
pub proof fn lemma_split_lines_len(s: Seq<char>)
    ensures
        split_lines(s).len() >= 1,
    decreases s.len(),
{
    if s.len() > 0 {
        lemma_split_lines_len(s.drop_last());
    }
}

/// No piece of a split contains a newline.
pub proof fn lemma_split_lines_no_nl(s: Seq<char>)
    ensures
        forall|i: int| 0 <= i < split_lines(s).len() ==> #[trigger] nl_free(split_lines(s)[i]),
    decreases s.len(),
{
    if s.len() == 0 {
        assert(nl_free(split_lines(s)[0]));
    } else {
        lemma_split_lines_no_nl(s.drop_last());
        lemma_split_lines_len(s.drop_last());
        let r = split_lines(s.drop_last());
        if s.last() == '\n' {
            assert(forall|i: int|
                0 <= i < split_lines(s).len() ==> #[trigger] split_lines(s)[i] == if i < r.len() {
                    r[i]
                } else {
                    Seq::<char>::empty()
                });
            assert(nl_free(Seq::<char>::empty()));
        } else {
            assert(nl_free(r[r.len() - 1]));
            assert(nl_free(r.last().push(s.last())));
            assert(forall|i: int|
                0 <= i < split_lines(s).len() ==> #[trigger] split_lines(s)[i] == if i < r.len()
                    - 1 {
                    r[i]
                } else {
                    r.last().push(s.last())
                });
        }
    }
}

/// Joining the split of a text gives the text back.
pub proof fn lemma_join_split(s: Seq<char>)
    ensures
        join_lines(split_lines(s)) == s,
    decreases s.len(),
{
    if s.len() == 0 {
    } else {
        lemma_join_split(s.drop_last());
        lemma_split_lines_len(s.drop_last());
        let r = split_lines(s.drop_last());
        if s.last() == '\n' {
            let ps = r.push(Seq::<char>::empty());
            assert(ps.drop_last() =~= r);
            assert(join_lines(ps) =~= s);
        } else {
            let ps = r.update(r.len() - 1, r.last().push(s.last()));
            assert(s =~= s.drop_last().push(s.last()));
            if r.len() == 1 {
                assert(join_lines(ps) == ps[0]);
                assert(join_lines(r) == r[0]);
                assert(ps[0] == r[0].push(s.last()));
            } else {
                assert(ps.drop_last() =~= r.drop_last());
                assert(ps.last() == r.last().push(s.last()));
                assert(join_lines(r) == join_lines(r.drop_last()) + seq!['\n'] + r.last());
                assert((join_lines(r.drop_last()) + seq!['\n'] + r.last()).push(s.last()) =~= join_lines(
                    r.drop_last(),
                ) + seq!['\n'] + r.last().push(s.last()));
                assert(join_lines(ps) == join_lines(ps.drop_last()) + seq!['\n'] + ps.last());
            }
        }
    }
}

/// Splitting a newline-free text yields that one piece.
pub proof fn lemma_split_nl_free(t: Seq<char>)
    requires
        nl_free(t),
    ensures
        split_lines(t) == seq![t],
    decreases t.len(),
{
    if t.len() == 0 {
        assert(t =~= Seq::<char>::empty());
        assert(split_lines(t) =~= seq![t]);
    } else {
        assert(nl_free(t.drop_last()));
        lemma_split_nl_free(t.drop_last());
        assert(t.last() != '\n');
        let r = seq![t.drop_last()];
        assert(r.last().push(t.last()) =~= t);
        assert(split_lines(t) =~= seq![t]);
    }
}

/// Appending a newline and a newline-free piece appends one piece to the
/// split.
proof fn lemma_split_append_line(x: Seq<char>, p: Seq<char>)
    requires
        nl_free(p),
    ensures
        split_lines(x + seq!['\n'] + p) == split_lines(x) + seq![p],
    decreases p.len(),
{
    lemma_split_lines_len(x);
    if p.len() == 0 {
        let s = x + seq!['\n'] + p;
        assert(s.drop_last() =~= x);
        assert(s.last() == '\n');
        assert(p =~= Seq::<char>::empty());
        assert(split_lines(s) =~= split_lines(x) + seq![p]);
    } else {
        let q = p.drop_last();
        assert(nl_free(q));
        lemma_split_append_line(x, q);
        let s = x + seq!['\n'] + p;
        assert(s.drop_last() =~= x + seq!['\n'] + q);
        assert(s.last() == p.last());
        assert(s.last() != '\n');
        let r = split_lines(x) + seq![q];
        assert(r.last() == q);
        assert(q.push(p.last()) =~= p);
        assert(split_lines(s) == r.update(r.len() - 1, r.last().push(s.last())));
        assert(split_lines(s) =~= split_lines(x) + seq![p]);
    }
}

/// Splitting the join of newline-free pieces gives the pieces back.
pub proof fn lemma_split_join(ls: Seq<Seq<char>>)
    requires
        ls.len() >= 1,
        forall|i: int| 0 <= i < ls.len() ==> #[trigger] nl_free(ls[i]),
    ensures
        split_lines(join_lines(ls)) == ls,
    decreases ls.len(),
{
    if ls.len() == 1 {
        assert(nl_free(ls[0]));
        lemma_split_nl_free(ls[0]);
        assert(split_lines(join_lines(ls)) =~= ls);
    } else {
        assert(forall|i: int|
            0 <= i < ls.drop_last().len() ==> #[trigger] nl_free(ls.drop_last()[i]));
        lemma_split_join(ls.drop_last());
        assert(nl_free(ls.last()));
        lemma_split_append_line(join_lines(ls.drop_last()), ls.last());
        assert(split_lines(join_lines(ls)) =~= ls);
    }
}

/// A prefix of a text splits into at most as many pieces.
proof fn lemma_split_prefix_len(t: Seq<char>, k: int)
    requires
        0 <= k <= t.len(),
    ensures
        split_lines(t.take(k)).len() <= split_lines(t).len(),
    decreases t.len() - k,
{
    if k == t.len() {
        assert(t.take(k) =~= t);
    } else {
        lemma_split_prefix_len(t, k + 1);
        let u = t.take(k + 1);
        assert(u.drop_last() =~= t.take(k));
        lemma_split_lines_len(t.take(k));
        assert(split_lines(t.take(k)).len() <= split_lines(u).len());
    }
}

/// The byte length of one more character of a prefix.
pub proof fn lemma_utf8_len_take_succ(s: Seq<char>, j: int)
    requires
        0 <= j < s.len(),
    ensures
        utf8_len(s.take(j + 1)) == utf8_len(s.take(j)) + char_width(s[j]),
{
    assert(s.take(j + 1) =~= s.take(j).push(s[j]));
    lemma_utf8_len_push(s.take(j), s[j]);
}

/// A prefix never has more bytes than the whole.
pub proof fn lemma_utf8_len_take_le(s: Seq<char>, k: int)
    requires
        0 <= k <= s.len(),
    ensures
        utf8_len(s.take(k)) <= utf8_len(s),
{
    assert(s =~= s.take(k) + s.skip(k));
    lemma_encode_utf8_concat(s.take(k), s.skip(k));
}

/// `prefix_within` fits in the cap and is a prefix.
pub proof fn lemma_prefix_within_props(s: Seq<char>, cap: nat)
    ensures
        utf8_len(prefix_within(s, cap)) <= cap,
        prefix_within(s, cap).len() <= s.len(),
        prefix_within(s, cap) == s.take(prefix_within(s, cap).len() as int),
    decreases s.len(),
{
    if utf8_len(s) <= cap {
        assert(s =~= s.take(s.len() as int));
    } else {
        assert(s.len() > 0) by {
            if s.len() == 0 {
                assert(utf8_len(s) == 0);
            }
        }
        lemma_prefix_within_props(s.drop_last(), cap);
        let r = prefix_within(s.drop_last(), cap);
        assert(s.drop_last().take(r.len() as int) =~= s.take(r.len() as int));
    }
}

/// The greedy forward scan and `prefix_within` agree: if the first `k`
/// characters fit and `k + 1` do not (or there is no next character), the
/// longest fitting prefix is exactly the first `k` characters.
pub proof fn lemma_prefix_within_take(s: Seq<char>, cap: nat, k: int)
    requires
        0 <= k <= s.len(),
        utf8_len(s.take(k)) <= cap,
        k == s.len() || utf8_len(s.take(k + 1)) > cap,
    ensures
        prefix_within(s, cap) == s.take(k),
    decreases s.len(),
{
    if utf8_len(s) <= cap {
        if k < s.len() {
            lemma_utf8_len_take_le(s, k + 1);
            assert(false);
        }
        assert(s.take(k) =~= s);
    } else {
        if k == s.len() {
            assert(s.take(k) =~= s);
            assert(false);
        }
        let t = s.drop_last();
        assert(t.take(k) =~= s.take(k));
        if k < t.len() {
            assert(t.take(k + 1) =~= s.take(k + 1));
        }
        lemma_prefix_within_take(t, cap, k);
    }
}

/// Splits a character vector at its newlines.
pub fn split_lines_exec(s: &Vec<char>) -> (r: Vec<Vec<char>>)
    ensures
        views(r@) == split_lines(s@),
{
    let n = s.len();
    let mut done: Vec<Vec<char>> = Vec::new();
    let mut cur: Vec<char> = Vec::new();
    let mut i: usize = 0;
    assert(views(done@).push(cur@) =~= split_lines(s@.subrange(0, 0)));
    while i < n
        invariant
            n == s@.len(),
            i <= n,
            views(done@).push(cur@) == split_lines(s@.subrange(0, i as int)),
        decreases n - i,
    {
        let c = s[i];
        proof {
            assert(s@.subrange(0, i + 1).drop_last() =~= s@.subrange(0, i as int));
            assert(s@.subrange(0, i + 1).last() == s@[i as int]);
            lemma_split_lines_len(s@.subrange(0, i as int));
        }
        if c == '\n' {
            done.push(cur);
            cur = Vec::new();
            assert(views(done@).push(cur@) =~= split_lines(s@.subrange(0, i as int)).push(
                Seq::<char>::empty(),
            ));
        } else {
            let ghost prev = split_lines(s@.subrange(0, i as int));
            cur.push(c);
            assert(views(done@).push(cur@) =~= prev.update(prev.len() - 1, prev.last().push(c)));
        }
        i += 1;
    }
    assert(s@.subrange(0, n as int) =~= s@);
    done.push(cur);
    assert(views(done@) =~= split_lines(s@));
    done
}

/// Copies a character vector.
fn clone_chars(v: &Vec<char>) -> (r: Vec<char>)
    ensures
        r@ == v@,
{
    let mut r: Vec<char> = Vec::new();
    let mut i: usize = 0;
    while i < v.len()
        invariant
            i <= v@.len(),
            r@ == v@.subrange(0, i as int),
        decreases v@.len() - i,
    {
        r.push(v[i]);
        i += 1;
        assert(r@ =~= v@.subrange(0, i as int));
    }
    assert(r@ =~= v@);
    r
}

/// Joins pieces with single newlines.
fn join_lines_exec(ps: &Vec<Vec<char>>) -> (r: Vec<char>)
    ensures
        r@ == join_lines(views(ps@)),
{
    let mut out: Vec<char> = Vec::new();
    let mut p: usize = 0;
    while p < ps.len()
        invariant
            p <= ps@.len(),
            out@ == join_lines(views(ps@).take(p as int)),
        decreases ps@.len() - p,
    {
        let ghost before = views(ps@).take(p as int);
        if p > 0 {
            out.push('\n');
        }
        let piece = &ps[p];
        let mut k: usize = 0;
        while k < piece.len()
            invariant
                k <= piece@.len(),
                piece@ == views(ps@)[p as int],
                p < ps@.len(),
                before == views(ps@).take(p as int),
                p > 0 ==> out@ == join_lines(before) + seq!['\n'] + piece@.subrange(0, k as int),
            p == 0 ==> out@ == piece@.subrange(0, k as int),
            decreases piece@.len() - k,
        {
            out.push(piece[k]);
            proof {
                if p > 0 {
                    assert(out@ =~= join_lines(before) + seq!['\n'] + piece@.subrange(0, k + 1));
                } else {
                    assert(out@ =~= piece@.subrange(0, k + 1));
                }
            }
            k += 1;
        }
        proof {
            let after = views(ps@).take(p + 1);
            assert(after.drop_last() =~= before);
            assert(after.last() == views(ps@)[p as int]);
            assert(piece@.subrange(0, piece@.len() as int) =~= piece@);
            if p > 0 {
                assert(after.len() >= 2);
                assert(join_lines(after) == join_lines(before) + seq!['\n'] + after.last());
                assert(out@ == join_lines(after));
            } else {
                assert(after.len() == 1);
                assert(join_lines(after) == after[0]);
                assert(out@ == join_lines(after));
            }
        }
        p += 1;
    }
    assert(views(ps@).take(ps@.len() as int) =~= views(ps@));
    out
}

/// Computes the UTF-8 byte length of `s`, or reports that it exceeds `cap`.
fn utf8_len_at_most(s: &Vec<char>, cap: usize) -> (r: Option<usize>)
    ensures
        match r {
            Some(w) => w == utf8_len(s@) && w <= cap,
            None => utf8_len(s@) > cap,
        },
{
    let n = s.len();
    let mut w: usize = 0;
    let mut k: usize = 0;
    assert(s@.take(0) =~= Seq::<char>::empty());
    while k < n
        invariant
            n == s@.len(),
            k <= n,
            w == utf8_len(s@.take(k as int)),
            w <= cap,
        decreases n - k,
    {
        let wd = char_utf8_width(s[k]);
        proof {
            lemma_utf8_len_take_succ(s@, k as int);
        }
        if wd > cap - w {
            proof {
                lemma_utf8_len_take_le(s@, k + 1);
            }
            return None;
        }
        w += wd;
        k += 1;
    }
    assert(s@.take(n as int) =~= s@);
    Some(w)
}

/// Returns the longest prefix of `s` that fits in `cap` UTF-8 bytes.
fn prefix_within_exec(s: &Vec<char>, cap: usize) -> (r: Vec<char>)
    ensures
        r@ == prefix_within(s@, cap as nat),
{
    let n = s.len();
    let mut out: Vec<char> = Vec::new();
    let mut w: usize = 0;
    let mut k: usize = 0;
    assert(s@.take(0) =~= Seq::<char>::empty());
    while k < n
        invariant
            n == s@.len(),
            k <= n,
            w == utf8_len(s@.take(k as int)),
            w <= cap,
            out@ == s@.take(k as int),
        decreases n - k,
    {
        let wd = char_utf8_width(s[k]);
        proof {
            lemma_utf8_len_take_succ(s@, k as int);
        }
        if wd > cap - w {
            proof {
                lemma_prefix_within_take(s@, cap as nat, k as int);
            }
            return out;
        }
        out.push(s[k]);
        assert(out@ =~= s@.take(k + 1));
        w += wd;
        k += 1;
    }
    proof {
        lemma_prefix_within_take(s@, cap as nat, n as int);
        assert(out@ =~= s@.take(n as int));
    }
    out
}

/// Shortens `input` to at most `max_lines` newline-separated lines and at
/// most `max_length` UTF-8 bytes, cutting only at character boundaries.
pub fn limit_string(input: &str, max_lines: usize, max_length: usize) -> (r: String)
    ensures
        r@ == limit_spec(input@, max_lines as nat, max_length as nat),
{
    let chars = str_to_chars(input);
    let pieces = split_lines_exec(&chars);
    let m = if pieces.len() <= max_lines {
        pieces.len()
    } else {
        max_lines
    };
    let mut kept: Vec<Vec<char>> = Vec::new();
    let mut i: usize = 0;
    while i < m
        invariant
            m <= pieces@.len(),
            i <= m,
            kept@.len() == i,
            forall|j: int| 0 <= j < i ==> kept@[j]@ == pieces@[j]@,
        decreases m - i,
    {
        kept.push(clone_chars(&pieces[i]));
        i += 1;
    }
    proof {
        assert(views(kept@) =~= views(pieces@).take(m as int));
    }
    let t = join_lines_exec(&kept);
    proof {
        assert(views(kept@) == split_lines(chars@).take(m as int));
    }
    match utf8_len_at_most(&t, max_length) {
        Some(_) => chars_to_string(&t),
        None => {
            let u = prefix_within_exec(&t, max_length);
            chars_to_string(&u)
        },
    }
}

/// Shortening is idempotent: applying the same limits to an already
/// shortened text changes nothing. The result also always fits the limits:
/// at most `max_len` UTF-8 bytes, and at most `max_lines` lines when at
/// least one line is allowed.
pub proof fn lemma_limit_idempotent(s: Seq<char>, max_lines: nat, max_len: nat)
    ensures
        limit_spec(limit_spec(s, max_lines, max_len), max_lines, max_len) == limit_spec(
            s,
            max_lines,
            max_len,
        ),
        utf8_len(limit_spec(s, max_lines, max_len)) <= max_len,
        max_lines >= 1 ==> split_lines(limit_spec(s, max_lines, max_len)).len() <= max_lines,
{
    let ps = split_lines(s);
    lemma_split_lines_len(s);
    lemma_split_lines_no_nl(s);
    let m = if ps.len() <= max_lines {
        ps.len() as int
    } else {
        max_lines as int
    };
    let t = join_lines(ps.take(m));
    if m == 0 {
        assert(ps.take(0) =~= Seq::<Seq<char>>::empty());
        assert(t =~= Seq::<char>::empty());
        assert(utf8_len(t) == 0);
        assert(limit_spec(s, max_lines, max_len) == t);
        let ps2 = split_lines(t);
        assert(ps2 =~= seq![Seq::<char>::empty()]);
        assert(ps2.take(0) =~= Seq::<Seq<char>>::empty());
        assert(limit_spec(t, max_lines, max_len) == t);
    } else {
        assert(forall|i: int| 0 <= i < m ==> #[trigger] nl_free(ps.take(m)[i]));
        lemma_split_join(ps.take(m));
        if utf8_len(t) <= max_len {
            assert(limit_spec(s, max_lines, max_len) == t);
            let ps2 = split_lines(t);
            assert(ps2 == ps.take(m));
            assert(ps2.len() == m);
            assert(ps2.take(m) =~= ps2);
            assert(limit_spec(t, max_lines, max_len) == t);
        } else {
            let u = prefix_within(t, max_len);
            assert(limit_spec(s, max_lines, max_len) == u);
            lemma_prefix_within_props(t, max_len);
            lemma_split_prefix_len(t, u.len() as int);
            lemma_split_lines_len(u);
            let ps3 = split_lines(u);
            assert(split_lines(t).len() == m);
            assert(ps3.len() <= m);
            assert(ps3.len() <= max_lines);
            assert(ps3.take(ps3.len() as int) =~= ps3);
            lemma_join_split(u);
            assert(limit_spec(u, max_lines, max_len) == u);
        }
    }
}

} // verus!
