//! The configuration parser and decisions of the memory-safety-checker
//! commands. The parameter line knows edition years, the test flag and the
//! aliasing-model keywords; unrecognized tokens are ignored and the last
//! recognized keyword of a family wins, as in the run parser.

use vstd::prelude::*;
use crate::commands::run::{
    Keywords, OUTPUT_MAX_BYTES, OUTPUT_MAX_LINES, edition_of, kw_stacked, kw_tests, kw_tree,
    params_line, parameters_of,
};
use crate::common::extract_code::{extract_code, extract_spec};
use crate::common::limit_content::{limit_spec, limit_string};
use crate::error::CommandError;
use crate::request::{
    AliasingModel, Edition, ExecutionResult, MiriRequest, MiriView, default_miri, result_content,
};
use crate::text::{
    chars_eq, chars_to_string, dec_digits, lower, lower_chars, push_dec, split_ws, str_to_chars,
    tokenize_ws, views,
};

verus! {

/// The aliasing model a token selects, if any.
pub open spec fn aliasing_of(t: Seq<char>) -> Option<AliasingModel> {
    let lt = lower(t);
    if lt == kw_stacked() {
        Some(AliasingModel::Stacked)
    } else if lt == kw_tree() {
        Some(AliasingModel::Tree)
    } else {
        None
    }
}

/// One token folded over an analysis request.
pub open spec fn apply_miri_token(r: MiriView, t: Seq<char>) -> MiriView {
    let lt = lower(t);
    if edition_of(t) is Some {
        MiriView { edition: edition_of(t)->0, ..r }
    } else if lt == kw_tests() {
        MiriView { tests: true, ..r }
    } else if aliasing_of(t) is Some {
        MiriView { aliasing_model: aliasing_of(t), ..r }
    } else {
        r
    }
}

/// A token sequence folded over an analysis request, in order.
pub open spec fn parse_miri_tokens(r: MiriView, ts: Seq<Seq<char>>) -> MiriView
    decreases ts.len(),
{
    if ts.len() == 0 {
        r
    } else {
        parse_miri_tokens(apply_miri_token(r, ts[0]), ts.drop_first())
    }
}

/// What `parse_miri` returns: the default analysis request carrying the
/// given code, with the recognized tokens applied in order.
pub open spec fn parse_miri_spec(cmd: Seq<char>, code: Seq<char>) -> MiriView {
    parse_miri_tokens(default_miri(code), split_ws(cmd))
}

/// Applies one token to the analysis request under construction.
fn apply_miri_token_exec(req: &mut MiriRequest, tok: &Vec<char>, kws: &Keywords)
    requires
        kws.wf(),
    ensures
        final(req)@ == apply_miri_token(old(req)@, tok@),
{
    let lt = lower_chars(tok);
    if chars_eq(&lt, &kws.y2015) || chars_eq(&lt, &kws.e2015) {
        req.edition = Edition::Edition2015;
    } else if chars_eq(&lt, &kws.y2018) || chars_eq(&lt, &kws.e2018) {
        req.edition = Edition::Edition2018;
    } else if chars_eq(&lt, &kws.y2021) || chars_eq(&lt, &kws.e2021) {
        req.edition = Edition::Edition2021;
    } else if chars_eq(&lt, &kws.y2024) || chars_eq(&lt, &kws.e2024) {
        req.edition = Edition::Edition2024;
    } else if chars_eq(&lt, &kws.tests) {
        req.tests = true;
    } else if chars_eq(&lt, &kws.stacked) {
        req.aliasing_model = Some(AliasingModel::Stacked);
    } else if chars_eq(&lt, &kws.tree) {
        req.aliasing_model = Some(AliasingModel::Tree);
    }
}

/// Parses a parameter line into an analysis request carrying `code`.
pub fn parse_miri(command: &str, code: String) -> (r: MiriRequest)
    ensures
        r@ == parse_miri_spec(command@, code@),
{
    let chars = str_to_chars(command);
    let toks = tokenize_ws(&chars);
    let kws = Keywords::new();
    let ghost code_view = code@;
    let mut req = MiriRequest::new(code, Edition::Edition2024, false, None);
    let ghost all = split_ws(command@);
    let n = toks.len();
    let mut i: usize = 0;
    while i < n
        invariant
            kws.wf(),
            n == toks@.len(),
            i <= n,
            views(toks@) == all,
            req@ == parse_miri_tokens(default_miri(code_view), all.take(i as int)),
        decreases n - i,
    {
        proof {
            lemma_parse_miri_tokens_push(
                default_miri(code_view),
                all.take(i as int),
                all[i as int],
            );
            assert(all.take(i as int).push(all[i as int]) =~= all.take(i + 1));
        }
        apply_miri_token_exec(&mut req, &toks[i], &kws);
        i += 1;
    }
    proof {
        assert(all.take(n as int) =~= all);
    }
    req
}

/// Folding one more token at the end applies it to the folded result.
pub proof fn lemma_parse_miri_tokens_push(r: MiriView, ts: Seq<Seq<char>>, t: Seq<char>)
    ensures
        parse_miri_tokens(r, ts.push(t)) == apply_miri_token(parse_miri_tokens(r, ts), t),
    decreases ts.len(),
{
    if ts.len() == 0 {
        assert(ts.push(t)[0] == t);
        assert(ts.push(t).drop_first() =~= Seq::<Seq<char>>::empty());
        assert(parse_miri_tokens(r, ts.push(t)) == parse_miri_tokens(
            apply_miri_token(r, t),
            ts.push(t).drop_first(),
        ));
        assert(parse_miri_tokens(apply_miri_token(r, t), ts.push(t).drop_first())
            == apply_miri_token(r, t));
        assert(parse_miri_tokens(r, ts) == r);
    } else {
        assert(ts.push(t)[0] == ts[0]);
        assert(ts.push(t).drop_first() =~= ts.drop_first().push(t));
        lemma_parse_miri_tokens_push(apply_miri_token(r, ts[0]), ts.drop_first(), t);
        assert(parse_miri_tokens(r, ts.push(t)) == parse_miri_tokens(
            apply_miri_token(r, ts[0]),
            ts.drop_first().push(t),
        ));
        assert(parse_miri_tokens(r, ts) == parse_miri_tokens(
            apply_miri_token(r, ts[0]),
            ts.drop_first(),
        ));
    }
}

/// A token the analysis parser recognizes.
pub open spec fn miri_recognized(t: Seq<char>) -> bool {
    edition_of(t) is Some || lower(t) == kw_tests() || aliasing_of(t) is Some
}

/// The token sequence with its unrecognized tokens removed.
pub open spec fn keep_miri_recognized(ts: Seq<Seq<char>>) -> Seq<Seq<char>>
    decreases ts.len(),
{
    if ts.len() == 0 {
        ts
    } else if miri_recognized(ts[0]) {
        seq![ts[0]] + keep_miri_recognized(ts.drop_first())
    } else {
        keep_miri_recognized(ts.drop_first())
    }
}

/// Unknown tokens never raise errors and never alter the analysis
/// request: parsing any token sequence gives the same request as parsing
/// only its recognized tokens.
pub proof fn lemma_miri_unknown_tokens_ignored(r: MiriView, ts: Seq<Seq<char>>)
    ensures
        parse_miri_tokens(r, ts) == parse_miri_tokens(r, keep_miri_recognized(ts)),
    decreases ts.len(),
{
    if ts.len() == 0 {
    } else if miri_recognized(ts[0]) {
        lemma_miri_unknown_tokens_ignored(apply_miri_token(r, ts[0]), ts.drop_first());
        let kept = seq![ts[0]] + keep_miri_recognized(ts.drop_first());
        assert(kept[0] == ts[0]);
        assert(kept.drop_first() =~= keep_miri_recognized(ts.drop_first()));
    } else {
        assert(apply_miri_token(r, ts[0]) == r);
        lemma_miri_unknown_tokens_ignored(r, ts.drop_first());
    }
}

/// Builds the analysis request of an inline miri command: the code of the
/// first fenced block under the configuration of the parameter line.
pub fn miri_code_request(input: &str) -> (r: Result<MiriRequest, CommandError>)
    ensures
        match r {
            Ok(req) => extract_spec(input@) is Some && req@ == parse_miri_spec(
                params_line(input@),
                extract_spec(input@)->0,
            ),
            Err(e) => e is NoCodeBlock && extract_spec(input@) is None,
        },
{
    let params = parameters_of(input);
    let code = match extract_code(input) {
        Ok(code) => code,
        Err(e) => {
            return Err(e);
        },
    };
    let params_str = chars_to_string(&params);
    Ok(parse_miri(params_str.as_str(), code))
}

/// What the reply to an inline miri command says.
pub open spec fn miri_reply_spec(
    author_id: nat,
    success: bool,
    stdout: Seq<char>,
    stderr: Seq<char>,
) -> Seq<char> {
    let content = limit_spec(
        result_content(success, stdout, stderr),
        OUTPUT_MAX_LINES as nat,
        OUTPUT_MAX_BYTES as nat,
    );
    if content.len() > 0 {
        "Running your code with miri returned the following output <@"@ + dec_digits(author_id)
            + ">\n```"@ + content + "```"@
    } else {
        "Running your code with miri gave no output <@"@ + dec_digits(author_id) + ">"@
    }
}

/// Renders the reply to an inline miri command from the backend result.
pub fn miri_reply(author_id: u64, result: &ExecutionResult) -> (r: String)
    ensures
        r@ == miri_reply_spec(author_id as nat, result.success, result.stdout@, result.stderr@),
{
    let content = if result.success {
        limit_string(result.stdout.as_str(), OUTPUT_MAX_LINES, OUTPUT_MAX_BYTES)
    } else {
        limit_string(result.stderr.as_str(), OUTPUT_MAX_LINES, OUTPUT_MAX_BYTES)
    };
    let mut digits: Vec<char> = Vec::new();
    push_dec(author_id, &mut digits);
    let id_str = chars_to_string(&digits);
    proof {
        assert(digits@ =~= dec_digits(author_id as nat));
    }
    let mut m = String::new();
    if !content.as_str().is_empty() {
        m.append("Running your code with miri returned the following output <@");
        m.append(id_str.as_str());
        m.append(">\n```");
        m.append(content.as_str());
        m.append("```");
    } else {
        m.append("Running your code with miri gave no output <@");
        m.append(id_str.as_str());
        m.append(">");
    }
    m
}

} // verus!
