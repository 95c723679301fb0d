//! Splitting long reply text into chunks that fit an embed description:
//! each chunk holds as many characters as fit in the size budget, cutting
//! only at character boundaries, and the chunks concatenate back to the
//! original text.

use vstd::prelude::*;
use crate::common::limit_content::{
    lemma_prefix_within_props, lemma_prefix_within_take, lemma_utf8_len_take_succ, prefix_within,
};
use crate::text::{char_utf8_width, chars_to_string, push_char, str_to_chars, utf8_len};

verus! {

/// The byte budget of one embed description.
pub const EMBED_DESCRIPTION_SIZE: usize = 4096;

/// A non-empty text yields a non-empty first chunk: a single character
/// never exceeds the budget.
proof fn lemma_first_chunk_nonempty(s: Seq<char>)
    requires
        s.len() > 0,
    ensures
        prefix_within(s, EMBED_DESCRIPTION_SIZE as nat).len() >= 1,
{
    if utf8_len(s) <= EMBED_DESCRIPTION_SIZE as nat {
    } else {
        assert(s.take(0) =~= Seq::<char>::empty());
        lemma_exists_cut(s, 0);
        let k = choose|k: int|
            {
                &&& 0 <= k < s.len()
                &&& utf8_len(s.take(k)) <= EMBED_DESCRIPTION_SIZE as nat
                &&& utf8_len(s.take(#[trigger] (k + 1))) > EMBED_DESCRIPTION_SIZE as nat
            };
        lemma_prefix_within_take(s, EMBED_DESCRIPTION_SIZE as nat, k);
        if k == 0 {
            lemma_utf8_len_take_succ(s, 0);
            crate::text::lemma_char_width_bounds(s[0]);
            assert(false);
        }
    }
}

/// Between a fitting prefix and an over-budget whole there is a cut: a
/// length whose prefix fits while one more character does not.
proof fn lemma_exists_cut(s: Seq<char>, k: int)
    requires
        0 <= k < s.len(),
        utf8_len(s.take(k)) <= EMBED_DESCRIPTION_SIZE as nat,
        utf8_len(s) > EMBED_DESCRIPTION_SIZE as nat,
    ensures
        exists|j: int|
            {
                &&& 0 <= j < s.len()
                &&& utf8_len(s.take(j)) <= EMBED_DESCRIPTION_SIZE as nat
                &&& utf8_len(s.take(#[trigger] (j + 1))) > EMBED_DESCRIPTION_SIZE as nat
            },
    decreases s.len() - k,
{
    lemma_utf8_len_take_succ(s, k);
    if utf8_len(s.take(k + 1)) > EMBED_DESCRIPTION_SIZE as nat {
    } else if k + 1 == s.len() {
        assert(s.take(k + 1) =~= s);
        assert(false);
    } else {
        lemma_exists_cut(s, k + 1);
    }
}

/// The chunks of a text: each one the longest character prefix of what is
/// left that fits the embed budget.
pub open spec fn chunks_spec(s: Seq<char>) -> Seq<Seq<char>>
    decreases s.len(),
    via chunks_spec_decreases
{
    if s.len() == 0 {
        Seq::<Seq<char>>::empty()
    } else {
        let c = prefix_within(s, EMBED_DESCRIPTION_SIZE as nat);
        seq![c] + chunks_spec(s.skip(c.len() as int))
    }
}

#[via_fn]
proof fn chunks_spec_decreases(s: Seq<char>) {
    if s.len() > 0 {
        lemma_first_chunk_nonempty(s);
        lemma_prefix_within_props(s, EMBED_DESCRIPTION_SIZE as nat);
    }
}

/// The string views of a vector of strings.
pub open spec fn string_views(vs: Seq<String>) -> Seq<Seq<char>> {
    Seq::new(vs.len(), |i: int| vs[i]@)
}

/// Splits reply text into consecutive chunks that each fit the embed
/// budget, never cutting through a character.
pub fn split_content(content: String) -> (r: Vec<String>)
    ensures
        string_views(r@) == chunks_spec(content@),
{
    let chars = str_to_chars(content.as_str());
    let n = chars.len();
    let mut out: Vec<String> = Vec::new();
    let mut pos: usize = 0;
    proof {
        assert(chars@.skip(0) =~= chars@);
        assert(string_views(out@) + chunks_spec(chars@.skip(0)) =~= chunks_spec(content@));
    }
    while pos < n
        invariant
            chars@ == content@,
            n == chars@.len(),
            pos <= n,
            chunks_spec(content@) == string_views(out@) + chunks_spec(chars@.skip(pos as int)),
        decreases n - pos,
    {
        let ghost rest = chars@.skip(pos as int);
        let mut chunk = String::new();
        let mut w: usize = 0;
        let mut k: usize = 0;
        assert(rest.take(0) =~= Seq::<char>::empty());
        loop
            invariant
                chars@ == content@,
                n == chars@.len(),
                pos <= n,
                rest == chars@.skip(pos as int),
                pos + k <= n,
                w == utf8_len(rest.take(k as int)),
                w <= EMBED_DESCRIPTION_SIZE,
                chunk@ == rest.take(k as int),
            ensures
                pos + k <= n,
                chunk@ == rest.take(k as int),
                utf8_len(rest.take(k as int)) <= EMBED_DESCRIPTION_SIZE,
                pos + k == n || utf8_len(rest.take(k as int + 1)) > EMBED_DESCRIPTION_SIZE,
            decreases n - pos - k,
        {
            if pos + k >= n {
                break;
            }
            let wd = char_utf8_width(chars[pos + k]);
            proof {
                assert(rest[k as int] == chars@[pos + k]);
                lemma_utf8_len_take_succ(rest, k as int);
            }
            if wd > EMBED_DESCRIPTION_SIZE - w {
                break;
            }
            push_char(&mut chunk, chars[pos + k]);
            assert(chunk@ =~= rest.take(k as int + 1));
            w += wd;
            k += 1;
        }
        proof {
            if pos + k == n {
                assert(rest.take(k as int) =~= rest);
            }
            lemma_prefix_within_take(rest, EMBED_DESCRIPTION_SIZE as nat, k as int);
            assert(prefix_within(rest, EMBED_DESCRIPTION_SIZE as nat) == chunk@);
            lemma_first_chunk_nonempty(rest);
        }
        let ghost out_before = out@;
        out.push(chunk);
        proof {
            assert(string_views(out@) =~= string_views(out_before) + seq![rest.take(k as int)]);
            assert(rest.skip(k as int) =~= chars@.skip(pos as int + k));
            assert(chunks_spec(rest) == seq![rest.take(k as int)] + chunks_spec(
                rest.skip(k as int),
            ));
            assert(string_views(out_before) + chunks_spec(rest) =~= string_views(out@)
                + chunks_spec(chars@.skip(pos as int + k)));
        }
        pos += k;
    }
    proof {
        assert(chars@.skip(n as int) =~= Seq::<char>::empty());
        assert(string_views(out@) + chunks_spec(chars@.skip(pos as int)) =~= string_views(out@));
    }
    out
}

} // verus!
