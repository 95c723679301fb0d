//! Resolution of a 32-character hexadecimal identifier out of an arbitrary
//! reference string: a raw identifier, a full URL, or an embed snippet. The
//! scan is case-insensitive and the result is normalized to lower case.

use vstd::prelude::*;
use crate::text::{chars_to_string, is_hex, is_hex_char, lower, lower_chars, str_to_chars};

verus! {

/// True when 32 consecutive hexadecimal characters start at `i`.
pub open spec fn hex32_at(s: Seq<char>, i: int) -> bool {
    0 <= i && i + 32 <= s.len() && forall|k: int| i <= k < i + 32 ==> is_hex_char(#[trigger] s[k])
}

/// The start of the leftmost run of 32 hexadecimal characters at or after
/// `from`.
pub open spec fn first_hex32(s: Seq<char>, from: int) -> Option<int>
    decreases s.len() + 1 - from,
{
    if from < 0 || from + 32 > s.len() {
        None
    } else if hex32_at(s, from) {
        Some(from)
    } else {
        first_hex32(s, from + 1)
    }
}

/// What `extract_32byte_hex` returns: the leftmost 32-character
/// hexadecimal run, lower-cased.
pub open spec fn hex_spec(s: Seq<char>) -> Option<Seq<char>> {
    match first_hex32(s, 0) {
        Some(i) => Some(lower(s.subrange(i, i + 32))),
        None => None,
    }
}

/// What a `first_hex32` result means.
pub proof fn lemma_first_hex32_props(s: Seq<char>, from: int)
    requires
        from >= 0,
    ensures
        match first_hex32(s, from) {
            Some(i) => hex32_at(s, i) && from <= i && forall|j: int|
                from <= j < i ==> !hex32_at(s, j),
            None => forall|j: int| j >= from ==> !hex32_at(s, j),
        },
    decreases s.len() + 1 - from,
{
    if from + 32 > s.len() {
    } else if hex32_at(s, from) {
    } else {
        lemma_first_hex32_props(s, from + 1);
    }
}

/// A matching position with no earlier match pins `first_hex32` down.
pub proof fn lemma_first_hex32_exact(s: Seq<char>, from: int, i: int)
    requires
        0 <= from <= i,
        hex32_at(s, i),
        forall|k: int| from <= k < i ==> !hex32_at(s, k),
    ensures
        first_hex32(s, from) == Some(i),
    decreases i - from,
{
    if from == i {
    } else {
        lemma_first_hex32_exact(s, from + 1, i);
    }
}

/// Finds the leftmost case-insensitive run of exactly 32 hexadecimal
/// characters in `input` and returns it lower-cased; `None` when `input`
/// holds no such run.
pub fn extract_32byte_hex(input: &str) -> (r: Option<String>)
    ensures
        match r {
            Some(id) => hex_spec(input@) == Some(id@),
            None => hex_spec(input@) is None,
        },
{
    let chars = str_to_chars(input);
    let n = chars.len();
    if n < 32 {
        return None;
    }
    let mut i: usize = 0;
    while i <= n - 32
        invariant
            chars@ == input@,
            n == chars@.len(),
            32 <= n,
            i <= n - 32 + 1,
            first_hex32(chars@, 0) == first_hex32(chars@, i as int),
        decreases n - i,
    {
        let mut k: usize = 0;
        while k < 32 && is_hex(chars[i + k])
            invariant
                i + 32 <= n,
                n == chars@.len(),
                k <= 32,
                forall|j: int| i <= j < i + k ==> is_hex_char(#[trigger] chars@[j]),
            decreases 32 - k,
        {
            k += 1;
        }
        if k == 32 {
            assert(hex32_at(chars@, i as int));
            assert(first_hex32(chars@, i as int) == Some(i as int));
            let mut run: Vec<char> = Vec::new();
            let mut k2: usize = i;
            while k2 < i + 32
                invariant
                    i + 32 <= n,
                    n == chars@.len(),
                    i <= k2 <= i + 32,
                    run@ == chars@.subrange(i as int, k2 as int),
                decreases i + 32 - k2,
            {
                run.push(chars[k2]);
                k2 += 1;
                assert(run@ =~= chars@.subrange(i as int, k2 as int));
            }
            let lowered = lower_chars(&run);
            proof {
                assert(hex_spec(input@) == Some(lower(input@.subrange(i as int, i as int + 32))));
            }
            return Some(chars_to_string(&lowered));
        }
        assert(!is_hex_char(chars@[i + k as int]));
        assert(!hex32_at(chars@, i as int));
        i += 1;
    }
    assert(first_hex32(chars@, i as int) is None);
    None
}

/// Embedding: a 32-character hexadecimal identifier placed after any prefix
/// that holds no such run and does not end in a hexadecimal character is
/// resolved to exactly that identifier, lower-cased, whatever follows it.
pub proof fn lemma_hex_embedded(p: Seq<char>, id: Seq<char>, q: Seq<char>)
    requires
        id.len() == 32,
        forall|k: int| 0 <= k < 32 ==> is_hex_char(#[trigger] id[k]),
        first_hex32(p, 0) is None,
        p.len() > 0 ==> !is_hex_char(p.last()),
    ensures
        hex_spec(p + id + q) == Some(lower(id)),
{
    let s = p + id + q;
    let m = p.len() as int;
    assert(forall|k: int| m <= k < m + 32 ==> is_hex_char(#[trigger] s[k]));
    assert(hex32_at(s, m));
    lemma_first_hex32_props(p, 0);
    assert forall|j: int| 0 <= j < m implies !hex32_at(s, j) by {
        if j + 32 <= m {
            assert(!hex32_at(p, j));
            if hex32_at(s, j) {
                let bad = choose|k: int| j <= k < j + 32 && !is_hex_char(p[k]);
                assert(s[bad] == p[bad]);
            }
        } else {
            assert(s[m - 1] == p.last());
            assert(!is_hex_char(s[m - 1]));
            if hex32_at(s, j) {
                assert(is_hex_char(s[m - 1]));
            }
        }
    }
    lemma_first_hex32_exact(s, 0, m);
    assert(s.subrange(m, m + 32) =~= id);
}

} // verus!
