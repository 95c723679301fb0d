//! Relaxed extraction of the first fenced code block from a message: the
//! fence needs no language tag, the interior is returned untrimmed, and a
//! message without a block yields the empty string instead of an error.

use vstd::prelude::*;
use crate::common::extract_code::{close_fence, rust_fence};
use crate::text::{chars_to_string, find_at, find_from, lemma_find_at_props, matches_at,
    occurs_at, str_to_chars};

verus! {

/// An untagged opening fence.
pub open spec fn bare_fence() -> Seq<char> {
    seq!['`', '`', '`', '\n']
}

/// Where the interior starts when an opening fence, tagged or bare, stands
/// at `i`.
pub open spec fn open_end(s: Seq<char>, i: int) -> Option<int> {
    if matches_at(s, rust_fence(), i) {
        Some(i + 8)
    } else if matches_at(s, bare_fence(), i) {
        Some(i + 4)
    } else {
        None
    }
}

/// The interior of the first fenced block whose opening fence starts at or
/// after `from` and that is closed by a later triple backtick.
pub open spec fn relaxed_capture(s: Seq<char>, from: int) -> Option<Seq<char>>
    decreases s.len() + 1 - from,
{
    if from < 0 || from > s.len() {
        None
    } else {
        match open_end(s, from) {
            Some(e) => match find_at(s, close_fence(), e) {
                Some(j) => Some(s.subrange(e, j)),
                None => relaxed_capture(s, from + 1),
            },
            None => relaxed_capture(s, from + 1),
        }
    }
}

/// Pulls the first fenced code block, tagged `rust` or untagged, out of
/// `msg`; a message without one yields the empty string.
pub fn extract_code(msg: &str) -> (r: String)
    ensures
        match relaxed_capture(msg@, 0) {
            Some(c) => r@ == c,
            None => r@ == Seq::<char>::empty(),
        },
{
    let chars = str_to_chars(msg);
    let fence = str_to_chars("```rust\n");
    let bare = str_to_chars("```\n");
    let close = str_to_chars("```");
    proof {
        reveal_strlit("```rust\n");
        reveal_strlit("```\n");
        reveal_strlit("```");
        assert(fence@ =~= rust_fence());
        assert(bare@ =~= bare_fence());
        assert(close@ =~= close_fence());
    }
    let n = chars.len();
    let mut i: usize = 0;
    while i < n
        invariant
            chars@ == msg@,
            n == chars@.len(),
            i <= n + 1,
            fence@ == rust_fence(),
            bare@ == bare_fence(),
            close@ == close_fence(),
            relaxed_capture(msg@, 0) == relaxed_capture(msg@, i as int),
        decreases n + 1 - i,
    {
        let e = if occurs_at(&chars, &fence, i) {
            proof {
                assert(i + 8 <= n);
            }
            Some(i + 8)
        } else if occurs_at(&chars, &bare, i) {
            proof {
                assert(i + 4 <= n);
            }
            Some(i + 4)
        } else {
            None
        };
        match e {
            Some(e) => {
                match find_from(&chars, &close, e) {
                    Some(j) => {
                        proof {
                            lemma_find_at_props(chars@, close_fence(), e as int);
                        }
                        let mut interior: Vec<char> = Vec::new();
                        let mut k = e;
                        while k < j
                            invariant
                                e <= k <= j <= chars@.len(),
                                interior@ == chars@.subrange(e as int, k as int),
                            decreases j - k,
                        {
                            interior.push(chars[k]);
                            k += 1;
                            assert(interior@ =~= chars@.subrange(e as int, k as int));
                        }
                        return chars_to_string(&interior);
                    },
                    None => {},
                }
            },
            None => {},
        }
        i += 1;
    }
    proof {
        assert(!matches_at(chars@, rust_fence(), n as int));
        assert(!matches_at(chars@, bare_fence(), n as int));
        assert(relaxed_capture(msg@, n as int) == relaxed_capture(msg@, n + 1));
        assert(relaxed_capture(msg@, n + 1) is None);
    }
    String::new()
}

} // verus!
