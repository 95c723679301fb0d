//! Extraction of the first `rust`-tagged fenced code block from a message.
//! The opening fence is the leftmost occurrence of a backtick fence tagged
//! `rust`; the block ends at the next triple backtick (non-greedy), and the
//! interior is returned trimmed of surrounding white space.

use vstd::prelude::*;
use crate::error::CommandError;
use crate::text::{
    chars_to_string, find_at, find_from, lemma_find_at_exact, lemma_find_at_props,
    lemma_trim_push_space, matches_at, str_to_chars, trim_chars, trim_spec,
};

verus! {

/// The opening fence of a `rust`-tagged code block.
pub open spec fn rust_fence() -> Seq<char> {
    seq!['`', '`', '`', 'r', 'u', 's', 't', '\n']
}

/// The closing fence of a code block.
pub open spec fn close_fence() -> Seq<char> {
    seq!['`', '`', '`']
}

/// The untrimmed interior of the first `rust`-tagged fenced block: the text
/// between the leftmost opening fence and the first closing fence after it.
pub open spec fn capture_spec(s: Seq<char>) -> Option<Seq<char>> {
    match find_at(s, rust_fence(), 0) {
        Some(i) => match find_at(s, close_fence(), i + 8) {
            Some(j) => Some(s.subrange(i + 8, j)),
            None => None,
        },
        None => None,
    }
}

/// What `extract_code` returns: the captured interior, trimmed.
pub open spec fn extract_spec(s: Seq<char>) -> Option<Seq<char>> {
    match capture_spec(s) {
        Some(c) => Some(trim_spec(c)),
        None => None,
    }
}

/// Pulls the first `rust`-tagged fenced code block out of `msg` and returns
/// its interior trimmed; fails with `NoCodeBlock` when no such block exists.
pub fn extract_code(msg: &str) -> (r: Result<String, CommandError>)
    ensures
        match r {
            Ok(code) => extract_spec(msg@) == Some(code@),
            Err(e) => e is NoCodeBlock && extract_spec(msg@) is None,
        },
{
    let chars = str_to_chars(msg);
    let fence = str_to_chars("```rust\n");
    let close = str_to_chars("```");
    proof {
        reveal_strlit("```rust\n");
        reveal_strlit("```");
        assert(fence@ =~= rust_fence());
        assert(close@ =~= close_fence());
    }
    let n = chars.len();
    let i = match find_from(&chars, &fence, 0) {
        Some(i) => i,
        None => {
            return Err(CommandError::NoCodeBlock);
        },
    };
    proof {
        lemma_find_at_props(chars@, rust_fence(), 0);
        assert(i + 8 <= n);
    }
    let j = match find_from(&chars, &close, i + 8) {
        Some(j) => j,
        None => {
            return Err(CommandError::NoCodeBlock);
        },
    };
    proof {
        lemma_find_at_props(chars@, rust_fence(), 0);
        lemma_find_at_props(chars@, close_fence(), i + 8);
    }
    let mut interior: Vec<char> = Vec::new();
    let mut k = i + 8;
    while k < j
        invariant
            i + 8 <= k <= j <= chars@.len(),
            interior@ == chars@.subrange(i + 8, k as int),
        decreases j - k,
    {
        interior.push(chars[k]);
        k += 1;
        assert(interior@ =~= chars@.subrange(i + 8, k as int));
    }
    let trimmed = trim_chars(&interior);
    Ok(chars_to_string(&trimmed))
}

/// Round trip: wrapping any text that does not itself contain a closing
/// fence in the expected fence syntax and extracting it again returns the
/// text trimmed of surrounding white space.
pub proof fn lemma_extract_round_trip(t: Seq<char>)
    requires
        forall|j: int| !matches_at(t, close_fence(), j),
    ensures
        extract_spec(rust_fence() + t + seq!['\n'] + close_fence()) == Some(trim_spec(t)),
{
    let s = rust_fence() + t + seq!['\n'] + close_fence();
    let n = t.len() as int;
    assert(s.len() == n + 12);
    assert(s.subrange(0, 8) =~= rust_fence());
    assert(matches_at(s, rust_fence(), 0));
    lemma_find_at_exact(s, rust_fence(), 0, 0);
    let jstar = 8 + n + 1;
    assert(s.subrange(jstar, jstar + 3) =~= close_fence());
    assert(matches_at(s, close_fence(), jstar));
    assert forall|j: int| 8 <= j < jstar implies !matches_at(s, close_fence(), j) by {
        if j + 3 <= 8 + n {
            assert(!matches_at(t, close_fence(), j - 8));
            if matches_at(s, close_fence(), j) {
                assert(s.subrange(j, j + 3) =~= t.subrange(j - 8, j - 8 + 3));
            }
        } else {
            assert(s[8 + n] == '\n');
            if matches_at(s, close_fence(), j) {
                let off = 8 + n - j;
                assert(0 <= off < 3);
                assert(s.subrange(j, j + 3)[off] == s[8 + n]);
                assert(close_fence()[off] == '`');
            }
        }
    }
    lemma_find_at_exact(s, close_fence(), 8, jstar);
    assert(s.subrange(8, jstar) =~= t.push('\n'));
    lemma_trim_push_space(t, '\n');
}

} // verus!
