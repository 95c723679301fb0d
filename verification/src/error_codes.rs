//! Conversion of compiler error-code documentation into chat-friendly
//! markdown. Lines are the pieces between newline characters. Fenced code
//! regions pass through untouched, except that a fence tagged
//! `compile_fail` opens as a plain `rust` fence. Outside code, runs of
//! blank lines collapse to one, reference-link lines gain angle brackets
//! around the target, other lines lose trailing white space, and trailing
//! blank lines are dropped from the result.

use vstd::prelude::*;
use crate::common::extract_code::close_fence;
use crate::common::limit_content::{split_lines, split_lines_exec};
use crate::text::{
    chars_to_string, extend_chars, find_at, find_from, lemma_find_at_props, matches_at,
    occurs_at, str_to_chars, trim_chars, trim_end_chars, trim_end_rec, trim_spec, views,
};

verus! {

/// The opening fence of a code block that is expected to fail to compile.
pub open spec fn compile_fail_fence() -> Seq<char> {
    seq!['`', '`', '`', 'c', 'o', 'm', 'p', 'i', 'l', 'e', '_', 'f', 'a', 'i', 'l']
}

/// A sequence without its leading colons.
pub open spec fn drop_colons(s: Seq<char>) -> Seq<char>
    decreases s.len(),
{
    if s.len() > 0 && s[0] == ':' {
        drop_colons(s.drop_first())
    } else {
        s
    }
}

proof fn lemma_drop_colons_at(s: Seq<char>, a: int)
    requires
        0 <= a <= s.len(),
        forall|j: int| 0 <= j < a ==> s[j] == ':',
        a == s.len() || s[a] != ':',
    ensures
        drop_colons(s) == s.skip(a),
    decreases a,
{
    if a == 0 {
        assert(s.skip(0) =~= s);
    } else {
        lemma_drop_colons_at(s.drop_first(), a - 1);
        assert(s.drop_first().skip(a - 1) =~= s.skip(a));
    }
}

/// What a reference-link line turns into, when the trimmed line has the
/// shape `[name]: url` with a target that begins with `http`: the target
/// wrapped in angle brackets. Any other line gets nothing here.
pub open spec fn link_line(t: Seq<char>) -> Option<Seq<char>> {
    if t.len() > 0 && t[0] == '[' {
        match find_at(t, seq![':'], 0) {
            Some(cp) => {
                let name = t.take(cp);
                let url = trim_spec(drop_colons(t.skip(cp)));
                if name.len() > 0 && name.last() == ']' && matches_at(
                    url,
                    seq!['h', 't', 't', 'p'],
                    0,
                ) {
                    Some(name + ": <"@ + url + ">\n"@)
                } else {
                    None
                }
            },
            None => None,
        }
    } else {
        None
    }
}

/// The transformed text of the given lines, entered with the given
/// in-code-block and blank-line-pending states.
pub open spec fn transform_lines(ls: Seq<Seq<char>>, in_code: bool, blank_pending: bool) -> Seq<
    char,
>
    decreases ls.len(),
{
    if ls.len() == 0 {
        Seq::<char>::empty()
    } else {
        let line = ls[0];
        let rest = ls.drop_first();
        let t = trim_spec(line);
        if matches_at(t, close_fence(), 0) {
            if !in_code {
                if matches_at(t, compile_fail_fence(), 0) {
                    "```rust\n"@ + transform_lines(rest, true, false)
                } else {
                    line + seq!['\n'] + transform_lines(rest, true, false)
                }
            } else {
                line + seq!['\n'] + transform_lines(rest, false, false)
            }
        } else if in_code {
            line + seq!['\n'] + transform_lines(rest, true, false)
        } else if t.len() == 0 {
            if !blank_pending {
                seq!['\n'] + transform_lines(rest, false, true)
            } else {
                transform_lines(rest, false, true)
            }
        } else if link_line(t) is Some {
            link_line(t)->0 + transform_lines(rest, false, false)
        } else {
            trim_end_rec(line) + seq!['\n'] + transform_lines(rest, false, false)
        }
    }
}

/// A text without its trailing blank lines: while it ends in two
/// newlines, one is dropped.
pub open spec fn trim_trailing_blank(s: Seq<char>) -> Seq<char>
    decreases s.len(),
{
    if s.len() >= 2 && s[s.len() - 1] == '\n' && s[s.len() - 2] == '\n' {
        trim_trailing_blank(s.drop_last())
    } else {
        s
    }
}

/// What `transform_text_general` returns.
pub open spec fn transform_spec(input: Seq<char>) -> Seq<char> {
    if input.len() == 0 {
        Seq::<char>::empty()
    } else {
        trim_trailing_blank(transform_lines(split_lines(input), false, false))
    }
}

/// Processes one line, appending its transformed text to `out` and
/// stepping the two state flags.
fn transform_one_line(
    out: &mut Vec<char>,
    line: &Vec<char>,
    in_code: &mut bool,
    blank_pending: &mut bool,
)
    ensures
        ({
            let t = trim_spec(line@);
            if matches_at(t, close_fence(), 0) {
                &&& final(out)@ == old(out)@ + (if !*old(in_code) && matches_at(
                    t,
                    compile_fail_fence(),
                    0,
                ) {
                    "```rust\n"@
                } else {
                    line@ + seq!['\n']
                })
                &&& *final(in_code) == !*old(in_code)
                &&& *final(blank_pending) == false
            } else if *old(in_code) {
                &&& final(out)@ == old(out)@ + line@ + seq!['\n']
                &&& *final(in_code) == true
                &&& *final(blank_pending) == false
            } else if t.len() == 0 {
                &&& final(out)@ == old(out)@ + (if !*old(blank_pending) {
                    seq!['\n']
                } else {
                    Seq::<char>::empty()
                })
                &&& *final(in_code) == false
                &&& *final(blank_pending) == true
            } else if link_line(t) is Some {
                &&& final(out)@ == old(out)@ + link_line(t)->0
                &&& *final(in_code) == false
                &&& *final(blank_pending) == false
            } else {
                &&& final(out)@ == old(out)@ + trim_end_rec(line@) + seq!['\n']
                &&& *final(in_code) == false
                &&& *final(blank_pending) == false
            }
        }),
{
    let trimmed = trim_chars(line);
    let close = str_to_chars("```");
    let cfail = str_to_chars("```compile_fail");
    let http = str_to_chars("http");
    let colon = str_to_chars(":");
    proof {
        reveal_strlit("```");
        reveal_strlit("```compile_fail");
        reveal_strlit("http");
        reveal_strlit(":");
        assert(close@ =~= close_fence());
        assert(cfail@ =~= compile_fail_fence());
        assert(http@ =~= seq!['h', 't', 't', 'p']);
        assert(colon@ =~= seq![':']);
    }
    if occurs_at(&trimmed, &close, 0) {
        if !*in_code {
            *in_code = true;
            if occurs_at(&trimmed, &cfail, 0) {
                let fence = str_to_chars("```rust\n");
                proof {
                    reveal_strlit("```rust\n");
                }
                extend_chars(out, &fence);
            } else {
                extend_chars(out, line);
                out.push('\n');
                assert(out@ =~= old(out)@ + line@ + seq!['\n']);
            }
        } else {
            *in_code = false;
            extend_chars(out, line);
            out.push('\n');
            assert(out@ =~= old(out)@ + line@ + seq!['\n']);
        }
        *blank_pending = false;
        return ;
    }
    if *in_code {
        extend_chars(out, line);
        out.push('\n');
        assert(out@ =~= old(out)@ + line@ + seq!['\n']);
        *blank_pending = false;
        return ;
    }
    if trimmed.len() == 0 {
        if !*blank_pending {
            out.push('\n');
            assert(out@ =~= old(out)@ + seq!['\n']);
        } else {
            assert(out@ =~= old(out)@ + Seq::<char>::empty());
        }
        *blank_pending = true;
        return ;
    }
    *blank_pending = false;
    *in_code = false;
    if trimmed[0] == '[' {
        match find_from(&trimmed, &colon, 0) {
            Some(cp) => {
                proof {
                    lemma_find_at_props(trimmed@, seq![':'], 0);
                }
                let name_len = cp;
                let mut a = cp;
                while a < trimmed.len() && trimmed[a] == ':'
                    invariant
                        cp <= a <= trimmed@.len(),
                        forall|j: int| cp <= j < a ==> trimmed@[j] == ':',
                    decreases trimmed@.len() - a,
                {
                    a += 1;
                }
                proof {
                    let tail = trimmed@.skip(cp as int);
                    assert(forall|j: int| 0 <= j < a - cp ==> tail[j] == ':');
                    lemma_drop_colons_at(tail, a - cp);
                    assert(tail.skip(a - cp) =~= trimmed@.skip(a as int));
                }
                let mut urlv: Vec<char> = Vec::new();
                let mut i = a;
                while i < trimmed.len()
                    invariant
                        a <= i <= trimmed@.len(),
                        urlv@ == trimmed@.subrange(a as int, i as int),
                    decreases trimmed@.len() - i,
                {
                    urlv.push(trimmed[i]);
                    i += 1;
                    assert(urlv@ =~= trimmed@.subrange(a as int, i as int));
                }
                proof {
                    assert(urlv@ =~= trimmed@.skip(a as int));
                }
                let url = trim_chars(&urlv);
                if name_len > 0 && trimmed[name_len - 1] == ']' && occurs_at(&url, &http, 0) {
                    let ghost t = trimmed@;
                    let ghost name = t.take(cp as int);
                    let mut k: usize = 0;
                    while k < name_len
                        invariant
                            name_len <= trimmed@.len(),
                            k <= name_len,
                            out@ == old(out)@ + trimmed@.subrange(0, k as int),
                        decreases name_len - k,
                    {
                        out.push(trimmed[k]);
                        k += 1;
                        assert(out@ =~= old(out)@ + trimmed@.subrange(0, k as int));
                    }
                    out.push(':');
                    out.push(' ');
                    out.push('<');
                    extend_chars(out, &url);
                    out.push('>');
                    out.push('\n');
                    proof {
                        assert(name.last() == t[cp - 1]);
                        assert(link_line(t) is Some);
                        assert(out@ =~= old(out)@ + (name + ": <"@ + url@ + ">\n"@)) by {
                            reveal_strlit(": <");
                            reveal_strlit(">\n");
                            assert(": <"@ =~= seq![':', ' ', '<']);
                            assert(">\n"@ =~= seq!['>', '\n']);
                        }
                    }
                    return ;
                }
                proof {
                    if link_line(trim_spec(line@)) is Some {
                        assert(false);
                    }
                }
                let te = trim_end_chars(line);
                extend_chars(out, &te);
                out.push('\n');
                assert(out@ =~= old(out)@ + trim_end_rec(line@) + seq!['\n']);
            },
            None => {
                let te = trim_end_chars(line);
                extend_chars(out, &te);
                out.push('\n');
                assert(out@ =~= old(out)@ + trim_end_rec(line@) + seq!['\n']);
            },
        }
    } else {
        let te = trim_end_chars(line);
        extend_chars(out, &te);
        out.push('\n');
        assert(out@ =~= old(out)@ + trim_end_rec(line@) + seq!['\n']);
    }
}

/// Converts error-code documentation to chat-friendly markdown: code
/// blocks pass through (a `compile_fail` fence opens as `rust`), runs of
/// blank lines collapse, reference-link targets gain angle brackets,
/// trailing white space and trailing blank lines are dropped.
pub fn transform_text_general(input: &str) -> (r: String)
    ensures
        r@ == transform_spec(input@),
{
    let chars = str_to_chars(input);
    if chars.len() == 0 {
        assert(input@ =~= Seq::<char>::empty());
        return String::new();
    }
    let pieces = split_lines_exec(&chars);
    let mut out: Vec<char> = Vec::new();
    let mut in_code = false;
    let mut blank_pending = false;
    let n = pieces.len();
    let mut i: usize = 0;
    let ghost all = split_lines(input@);
    proof {
        assert(all.skip(0) =~= all);
        assert(Seq::<char>::empty() + transform_lines(all, false, false) =~= transform_lines(
            all,
            false,
            false,
        ));
    }
    while i < n
        invariant
            n == pieces@.len(),
            i <= n,
            views(pieces@) == all,
            transform_lines(all, false, false) == out@ + transform_lines(
                all.skip(i as int),
                in_code,
                blank_pending,
            ),
        decreases n - i,
    {
        let ghost rem = all.skip(i as int);
        proof {
            assert(rem[0] == all[i as int]);
            assert(rem.drop_first() =~= all.skip(i as int + 1));
        }
        let ghost out_before = out@;
        let ghost ic0 = in_code;
        let ghost bp0 = blank_pending;
        transform_one_line(&mut out, &pieces[i], &mut in_code, &mut blank_pending);
        proof {
            assert(pieces@[i as int]@ == all[i as int]);
            assert(out@ + transform_lines(all.skip(i as int + 1), in_code, blank_pending)
                =~= out_before + transform_lines(rem, ic0, bp0));
        }
        i += 1;
    }
    proof {
        assert(all.skip(n as int) =~= Seq::<Seq<char>>::empty());
        assert(out@ + Seq::<char>::empty() =~= out@);
    }
    while out.len() >= 2 && out[out.len() - 1] == '\n' && out[out.len() - 2] == '\n'
        invariant
            trim_trailing_blank(out@) == transform_spec(input@),
        decreases out@.len(),
    {
        out.pop();
    }
    chars_to_string(&out)
}

} // verus!
