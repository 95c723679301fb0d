//! The configuration parser of the run commands: a line of white-space
//! separated tokens is folded, in order, over the canonical default
//! request. Each recognized keyword overwrites exactly one field, matching
//! case-insensitively; unrecognized tokens are ignored and never fail, so
//! the last recognized keyword of a family wins.

use vstd::prelude::*;
use crate::common::extract_code::{close_fence, extract_code, extract_spec};
use crate::common::limit_content::{limit_spec, limit_string};
use crate::error::CommandError;
use crate::request::{
    Channel, CrateType, Edition, ExecuteRequest, ExecutionResult, Mode, ReqView, default_req,
    result_content,
};
use crate::text::{
    chars_eq, chars_to_string, dec_digits, find_at, find_from, is_space, is_space_char,
    lemma_find_at_props, lemma_trim_start_at, lower, lower_chars, matches_at, occurs_at, push_dec,
    split_ws, str_to_chars, tokenize_ws, trim_start_rec, views,
};

verus! {

/// How many lines of backend output a reply keeps.
pub const OUTPUT_MAX_LINES: usize = 50;

/// How many bytes of backend output a reply keeps.
pub const OUTPUT_MAX_BYTES: usize = 2000;

pub open spec fn kw_release() -> Seq<char> {
    seq!['-', 'r']
}

pub open spec fn kw_beta() -> Seq<char> {
    seq!['b', 'e', 't', 'a']
}

pub open spec fn kw_nightly() -> Seq<char> {
    seq!['n', 'i', 'g', 'h', 't', 'l', 'y']
}

pub open spec fn kw_2015() -> Seq<char> {
    seq!['2', '0', '1', '5']
}

pub open spec fn kw_e2015() -> Seq<char> {
    seq!['e', '2', '0', '1', '5']
}

pub open spec fn kw_2018() -> Seq<char> {
    seq!['2', '0', '1', '8']
}

pub open spec fn kw_e2018() -> Seq<char> {
    seq!['e', '2', '0', '1', '8']
}

pub open spec fn kw_2021() -> Seq<char> {
    seq!['2', '0', '2', '1']
}

pub open spec fn kw_e2021() -> Seq<char> {
    seq!['e', '2', '0', '2', '1']
}

pub open spec fn kw_2024() -> Seq<char> {
    seq!['2', '0', '2', '4']
}

pub open spec fn kw_e2024() -> Seq<char> {
    seq!['e', '2', '0', '2', '4']
}

pub open spec fn kw_binary() -> Seq<char> {
    seq!['b', 'i', 'n', 'a', 'r', 'y']
}

pub open spec fn kw_bin() -> Seq<char> {
    seq!['b', 'i', 'n']
}

pub open spec fn kw_library() -> Seq<char> {
    seq!['l', 'i', 'b', 'r', 'a', 'r', 'y']
}

pub open spec fn kw_lib() -> Seq<char> {
    seq!['l', 'i', 'b']
}

pub open spec fn kw_tests() -> Seq<char> {
    seq!['t', 'e', 's', 't', 's']
}

pub open spec fn kw_backtrace() -> Seq<char> {
    seq!['b', 'a', 'c', 'k', 't', 'r', 'a', 'c', 'e']
}

pub open spec fn kw_stacked() -> Seq<char> {
    seq!['s', 't', 'a', 'c', 'k', 'e', 'd']
}

pub open spec fn kw_tree() -> Seq<char> {
    seq!['t', 'r', 'e', 'e']
}

/// The channel a token selects, if any.
pub open spec fn channel_of(t: Seq<char>) -> Option<Channel> {
    let lt = lower(t);
    if lt == kw_beta() {
        Some(Channel::Beta)
    } else if lt == kw_nightly() {
        Some(Channel::Nightly)
    } else {
        None
    }
}

/// The mode a token selects, if any.
pub open spec fn mode_of(t: Seq<char>) -> Option<Mode> {
    if lower(t) == kw_release() {
        Some(Mode::Release)
    } else {
        None
    }
}

/// The edition a token selects, if any: a year, plainly or prefixed with
/// `e`, each mapping to its own edition.
pub open spec fn edition_of(t: Seq<char>) -> Option<Edition> {
    let lt = lower(t);
    if lt == kw_2015() || lt == kw_e2015() {
        Some(Edition::Edition2015)
    } else if lt == kw_2018() || lt == kw_e2018() {
        Some(Edition::Edition2018)
    } else if lt == kw_2021() || lt == kw_e2021() {
        Some(Edition::Edition2021)
    } else if lt == kw_2024() || lt == kw_e2024() {
        Some(Edition::Edition2024)
    } else {
        None
    }
}

/// The crate type a token selects, if any.
pub open spec fn crate_type_of(t: Seq<char>) -> Option<CrateType> {
    let lt = lower(t);
    if lt == kw_binary() || lt == kw_bin() {
        Some(CrateType::Binary)
    } else if lt == kw_library() || lt == kw_lib() {
        Some(CrateType::Library)
    } else {
        None
    }
}

/// The request field a token belongs to.
#[derive(PartialEq, Eq, Structural)]
pub enum TokenField {
    OfChannel,
    OfMode,
    OfEdition,
    OfCrateType,
    OfTests,
    OfBacktrace,
}

/// The field family of a token; `None` for an unrecognized token.
pub open spec fn token_family(t: Seq<char>) -> Option<TokenField> {
    if mode_of(t) is Some {
        Some(TokenField::OfMode)
    } else if channel_of(t) is Some {
        Some(TokenField::OfChannel)
    } else if edition_of(t) is Some {
        Some(TokenField::OfEdition)
    } else if crate_type_of(t) is Some {
        Some(TokenField::OfCrateType)
    } else if lower(t) == kw_tests() {
        Some(TokenField::OfTests)
    } else if lower(t) == kw_backtrace() {
        Some(TokenField::OfBacktrace)
    } else {
        None
    }
}

/// A token is recognized when it belongs to some field family.
pub open spec fn recognized(t: Seq<char>) -> bool {
    token_family(t) is Some
}

/// One token folded over a request: the recognized keyword overwrites its
/// field, an unrecognized token changes nothing.
pub open spec fn apply_token(r: ReqView, t: Seq<char>) -> ReqView {
    match token_family(t) {
        Some(TokenField::OfMode) => ReqView { mode: mode_of(t)->0, ..r },
        Some(TokenField::OfChannel) => ReqView { channel: channel_of(t)->0, ..r },
        Some(TokenField::OfEdition) => ReqView { edition: edition_of(t)->0, ..r },
        Some(TokenField::OfCrateType) => ReqView { crate_type: crate_type_of(t)->0, ..r },
        Some(TokenField::OfTests) => ReqView { tests: true, ..r },
        Some(TokenField::OfBacktrace) => ReqView { backtrace: true, ..r },
        None => r,
    }
}

/// A token sequence folded over a request, in order.
pub open spec fn parse_tokens(r: ReqView, ts: Seq<Seq<char>>) -> ReqView
    decreases ts.len(),
{
    if ts.len() == 0 {
        r
    } else {
        parse_tokens(apply_token(r, ts[0]), ts.drop_first())
    }
}

/// What `parse_run_command` returns: the default request with the
/// recognized tokens of the parameter line applied in order, carrying the
/// given code.
pub open spec fn parse_spec(cmd: Seq<char>, code: Seq<char>) -> ReqView {
    let r = parse_tokens(default_req(Seq::<char>::empty()), split_ws(cmd));
    ReqView { code: code, ..r }
}

/// The lower-cased keyword vectors the executable parsers match against.
pub(crate) struct Keywords {
    pub(crate) release: Vec<char>,
    pub(crate) beta: Vec<char>,
    pub(crate) nightly: Vec<char>,
    pub(crate) y2015: Vec<char>,
    pub(crate) e2015: Vec<char>,
    pub(crate) y2018: Vec<char>,
    pub(crate) e2018: Vec<char>,
    pub(crate) y2021: Vec<char>,
    pub(crate) e2021: Vec<char>,
    pub(crate) y2024: Vec<char>,
    pub(crate) e2024: Vec<char>,
    pub(crate) binary: Vec<char>,
    pub(crate) bin: Vec<char>,
    pub(crate) library: Vec<char>,
    pub(crate) lib: Vec<char>,
    pub(crate) tests: Vec<char>,
    pub(crate) backtrace: Vec<char>,
    pub(crate) stacked: Vec<char>,
    pub(crate) tree: Vec<char>,
}

impl Keywords {
    pub(crate) open spec fn wf(&self) -> bool {
        &&& self.release@ == kw_release()
        &&& self.beta@ == kw_beta()
        &&& self.nightly@ == kw_nightly()
        &&& self.y2015@ == kw_2015()
        &&& self.e2015@ == kw_e2015()
        &&& self.y2018@ == kw_2018()
        &&& self.e2018@ == kw_e2018()
        &&& self.y2021@ == kw_2021()
        &&& self.e2021@ == kw_e2021()
        &&& self.y2024@ == kw_2024()
        &&& self.e2024@ == kw_e2024()
        &&& self.binary@ == kw_binary()
        &&& self.bin@ == kw_bin()
        &&& self.library@ == kw_library()
        &&& self.lib@ == kw_lib()
        &&& self.tests@ == kw_tests()
        &&& self.backtrace@ == kw_backtrace()
        &&& self.stacked@ == kw_stacked()
        &&& self.tree@ == kw_tree()
    }

    pub(crate) fn new() -> (r: Keywords)
        ensures
            r.wf(),
    {
        let k = Keywords {
            release: str_to_chars("-r"),
            beta: str_to_chars("beta"),
            nightly: str_to_chars("nightly"),
            y2015: str_to_chars("2015"),
            e2015: str_to_chars("e2015"),
            y2018: str_to_chars("2018"),
            e2018: str_to_chars("e2018"),
            y2021: str_to_chars("2021"),
            e2021: str_to_chars("e2021"),
            y2024: str_to_chars("2024"),
            e2024: str_to_chars("e2024"),
            binary: str_to_chars("binary"),
            bin: str_to_chars("bin"),
            library: str_to_chars("library"),
            lib: str_to_chars("lib"),
            tests: str_to_chars("tests"),
            backtrace: str_to_chars("backtrace"),
            stacked: str_to_chars("stacked"),
            tree: str_to_chars("tree"),
        };
        proof {
            reveal_strlit("-r");
            reveal_strlit("beta");
            reveal_strlit("nightly");
            reveal_strlit("2015");
            reveal_strlit("e2015");
            reveal_strlit("2018");
            reveal_strlit("e2018");
            reveal_strlit("2021");
            reveal_strlit("e2021");
            reveal_strlit("2024");
            reveal_strlit("e2024");
            reveal_strlit("binary");
            reveal_strlit("bin");
            reveal_strlit("library");
            reveal_strlit("lib");
            reveal_strlit("tests");
            reveal_strlit("backtrace");
            reveal_strlit("stacked");
            reveal_strlit("tree");
            assert(k.release@ =~= kw_release());
            assert(k.beta@ =~= kw_beta());
            assert(k.nightly@ =~= kw_nightly());
            assert(k.y2015@ =~= kw_2015());
            assert(k.e2015@ =~= kw_e2015());
            assert(k.y2018@ =~= kw_2018());
            assert(k.e2018@ =~= kw_e2018());
            assert(k.y2021@ =~= kw_2021());
            assert(k.e2021@ =~= kw_e2021());
            assert(k.y2024@ =~= kw_2024());
            assert(k.e2024@ =~= kw_e2024());
            assert(k.binary@ =~= kw_binary());
            assert(k.bin@ =~= kw_bin());
            assert(k.library@ =~= kw_library());
            assert(k.lib@ =~= kw_lib());
            assert(k.tests@ =~= kw_tests());
            assert(k.backtrace@ =~= kw_backtrace());
            assert(k.stacked@ =~= kw_stacked());
            assert(k.tree@ =~= kw_tree());
        }
        k
    }
}

/// Applies one token to the request under construction.
fn apply_token_exec(req: &mut ExecuteRequest, tok: &Vec<char>, kws: &Keywords)
    requires
        kws.wf(),
    ensures
        final(req)@ == apply_token(old(req)@, tok@),
{
    let lt = lower_chars(tok);
    if chars_eq(&lt, &kws.release) {
        req.mode = Mode::Release;
    } else if chars_eq(&lt, &kws.beta) {
        req.channel = Channel::Beta;
    } else if chars_eq(&lt, &kws.nightly) {
        req.channel = Channel::Nightly;
    } else if chars_eq(&lt, &kws.y2015) || chars_eq(&lt, &kws.e2015) {
        req.edition = Edition::Edition2015;
    } else if chars_eq(&lt, &kws.y2018) || chars_eq(&lt, &kws.e2018) {
        req.edition = Edition::Edition2018;
    } else if chars_eq(&lt, &kws.y2021) || chars_eq(&lt, &kws.e2021) {
        req.edition = Edition::Edition2021;
    } else if chars_eq(&lt, &kws.y2024) || chars_eq(&lt, &kws.e2024) {
        req.edition = Edition::Edition2024;
    } else if chars_eq(&lt, &kws.binary) || chars_eq(&lt, &kws.bin) {
        req.crate_type = CrateType::Binary;
    } else if chars_eq(&lt, &kws.library) || chars_eq(&lt, &kws.lib) {
        req.crate_type = CrateType::Library;
    } else if chars_eq(&lt, &kws.tests) {
        req.tests = true;
    } else if chars_eq(&lt, &kws.backtrace) {
        req.backtrace = true;
    }
}

/// Parses a parameter line into an execution request carrying `code`.
/// Tokens are matched case-insensitively; unrecognized ones are ignored;
/// on repetition the last recognized keyword of a family wins.
pub fn parse_run_command(command: &str, code: String) -> (r: ExecuteRequest)
    ensures
        r@ == parse_spec(command@, code@),
{
    let chars = str_to_chars(command);
    let toks = tokenize_ws(&chars);
    let kws = Keywords::new();
    let mut req = ExecuteRequest::default();
    let ghost all = split_ws(command@);
    let n = toks.len();
    let mut i: usize = 0;
    while i < n
        invariant
            kws.wf(),
            n == toks@.len(),
            i <= n,
            views(toks@) == all,
            req@ == parse_tokens(default_req(Seq::<char>::empty()), all.take(i as int)),
        decreases n - i,
    {
        proof {
            lemma_parse_tokens_push(
                default_req(Seq::<char>::empty()),
                all.take(i as int),
                all[i as int],
            );
            assert(all.take(i as int).push(all[i as int]) =~= all.take(i + 1));
        }
        apply_token_exec(&mut req, &toks[i], &kws);
        i += 1;
    }
    proof {
        assert(all.take(n as int) =~= all);
    }
    req.code = code;
    req
}

/// The first line of a message: everything before the first newline.
pub open spec fn first_line(s: Seq<char>) -> Seq<char> {
    match find_at(s, seq!['\n'], 0) {
        Some(i) => s.take(i),
        None => s,
    }
}

/// The parameter line of an inline run command: the first line of the
/// message, unless that line already opens the code fence, in which case
/// there are no parameters.
pub open spec fn params_line(s: Seq<char>) -> Seq<char> {
    let fl = first_line(s);
    if matches_at(trim_start_rec(fl), close_fence(), 0) {
        Seq::<char>::empty()
    } else {
        fl
    }
}

/// Extracts the parameter line of an inline run command.
pub fn parameters_of(input: &str) -> (r: Vec<char>)
    ensures
        r@ == params_line(input@),
{
    let chars = str_to_chars(input);
    let nl = str_to_chars("\n");
    proof {
        reveal_strlit("\n");
        assert(nl@ =~= seq!['\n']);
    }
    let n = chars.len();
    let end = match find_from(&chars, &nl, 0) {
        Some(i) => {
            proof {
                lemma_find_at_props(chars@, seq!['\n'], 0);
            }
            i
        },
        None => n,
    };
    let mut fl: Vec<char> = Vec::new();
    let mut i: usize = 0;
    while i < end
        invariant
            end <= chars@.len(),
            i <= end,
            fl@ == chars@.subrange(0, i as int),
        decreases end - i,
    {
        fl.push(chars[i]);
        i += 1;
        assert(fl@ =~= chars@.subrange(0, i as int));
    }
    proof {
        if find_at(chars@, seq!['\n'], 0) is Some {
            assert(fl@ =~= first_line(input@));
        } else {
            assert(fl@ =~= input@);
        }
    }
    let mut a: usize = 0;
    while a < fl.len() && is_space(fl[a])
        invariant
            fl@ == first_line(input@),
            a <= fl@.len(),
            forall|j: int| 0 <= j < a ==> is_space_char(fl@[j]),
        decreases fl@.len() - a,
    {
        a += 1;
    }
    proof {
        lemma_trim_start_at(fl@, a as int);
    }
    let close = str_to_chars("```");
    proof {
        reveal_strlit("```");
        assert(close@ =~= close_fence());
    }
    if occurs_at(&fl, &close, a) {
        proof {
            assert(trim_start_rec(fl@) == fl@.subrange(a as int, fl@.len() as int));
            assert(trim_start_rec(fl@).subrange(0, 3) =~= fl@.subrange(a as int, a + 3));
            assert(fl@.subrange(a as int, a + 3) =~= close_fence());
        }
        Vec::new()
    } else {
        proof {
            if matches_at(trim_start_rec(fl@), close_fence(), 0) {
                assert(fl@.subrange(a as int, a + 3) =~= trim_start_rec(fl@).subrange(0, 3));
            }
        }
        fl
    }
}

/// Builds the execution request of an inline run command: the code of the
/// first fenced block under the configuration of the parameter line; a
/// message without a code block is rejected.
pub fn run_code_request(input: &str) -> (r: Result<ExecuteRequest, CommandError>)
    ensures
        match r {
            Ok(req) => extract_spec(input@) is Some && req@ == parse_spec(
                params_line(input@),
                extract_spec(input@)->0,
            ),
            Err(e) => e is NoCodeBlock && extract_spec(input@) is None,
        },
{
    let params = parameters_of(input);
    let code = match extract_code(input) {
        Ok(code) => code,
        Err(e) => {
            return Err(e);
        },
    };
    let params_str = chars_to_string(&params);
    Ok(parse_run_command(params_str.as_str(), code))
}

/// What the reply to an inline run command says: the kept part of the
/// output stream selected by the success flag, fenced and addressed to the
/// requester, or an explicit no-output message.
pub open spec fn run_reply_spec(
    author_id: nat,
    success: bool,
    stdout: Seq<char>,
    stderr: Seq<char>,
) -> Seq<char> {
    let content = limit_spec(
        result_content(success, stdout, stderr),
        OUTPUT_MAX_LINES as nat,
        OUTPUT_MAX_BYTES as nat,
    );
    if content.len() > 0 {
        "Running your code returned the following output <@"@ + dec_digits(author_id) + ">\n```"@
            + content + "```"@
    } else {
        "Running your code gave no output <@"@ + dec_digits(author_id) + ">"@
    }
}

/// Renders the reply to an inline run command from the backend result.
pub fn run_reply(author_id: u64, result: &ExecutionResult) -> (r: String)
    ensures
        r@ == run_reply_spec(author_id as nat, result.success, result.stdout@, result.stderr@),
{
    let content = if result.success {
        limit_string(result.stdout.as_str(), OUTPUT_MAX_LINES, OUTPUT_MAX_BYTES)
    } else {
        limit_string(result.stderr.as_str(), OUTPUT_MAX_LINES, OUTPUT_MAX_BYTES)
    };
    let mut digits: Vec<char> = Vec::new();
    push_dec(author_id, &mut digits);
    let id_str = chars_to_string(&digits);
    proof {
        assert(digits@ =~= dec_digits(author_id as nat));
    }
    let mut m = String::new();
    if !content.as_str().is_empty() {
        m.append("Running your code returned the following output <@");
        m.append(id_str.as_str());
        m.append(">\n```");
        m.append(content.as_str());
        m.append("```");
    } else {
        m.append("Running your code gave no output <@");
        m.append(id_str.as_str());
        m.append(">");
    }
    m
}

/// What the plain run command replies: the standard output wrapped in a
/// bare code fence.
pub open spec fn simple_run_reply_spec(stdout: Seq<char>) -> Seq<char> {
    "```\n"@ + stdout + "\n```"@
}

/// Renders the reply of the plain run command.
pub fn simple_run_reply(stdout: &str) -> (r: String)
    ensures
        r@ == simple_run_reply_spec(stdout@),
{
    let mut m = String::new();
    m.append("```\n");
    m.append(stdout);
    m.append("\n```");
    m
}

/// Folding one more token at the end applies it to the folded result.
pub proof fn lemma_parse_tokens_push(r: ReqView, ts: Seq<Seq<char>>, t: Seq<char>)
    ensures
        parse_tokens(r, ts.push(t)) == apply_token(parse_tokens(r, ts), t),
    decreases ts.len(),
{
    if ts.len() == 0 {
        assert(ts.push(t)[0] == t);
        assert(ts.push(t).drop_first() =~= Seq::<Seq<char>>::empty());
    } else {
        assert(ts.push(t)[0] == ts[0]);
        assert(ts.push(t).drop_first() =~= ts.drop_first().push(t));
        lemma_parse_tokens_push(apply_token(r, ts[0]), ts.drop_first(), t);
    }
}

/// The token sequence with its unrecognized tokens removed.
pub open spec fn keep_recognized(ts: Seq<Seq<char>>) -> Seq<Seq<char>>
    decreases ts.len(),
{
    if ts.len() == 0 {
        ts
    } else if recognized(ts[0]) {
        seq![ts[0]] + keep_recognized(ts.drop_first())
    } else {
        keep_recognized(ts.drop_first())
    }
}

/// Unknown tokens never raise errors and never alter the request: parsing
/// any token sequence gives the same request as parsing only its
/// recognized tokens.
pub proof fn lemma_unknown_tokens_ignored(r: ReqView, ts: Seq<Seq<char>>)
    ensures
        parse_tokens(r, ts) == parse_tokens(r, keep_recognized(ts)),
    decreases ts.len(),
{
    if ts.len() == 0 {
    } else if recognized(ts[0]) {
        lemma_unknown_tokens_ignored(apply_token(r, ts[0]), ts.drop_first());
        let kept = seq![ts[0]] + keep_recognized(ts.drop_first());
        assert(kept[0] == ts[0]);
        assert(kept.drop_first() =~= keep_recognized(ts.drop_first()));
    } else {
        assert(apply_token(r, ts[0]) == r);
        lemma_unknown_tokens_ignored(r, ts.drop_first());
    }
}

/// The channel selected by the last channel keyword of the sequence.
pub open spec fn last_channel(ts: Seq<Seq<char>>) -> Option<Channel>
    decreases ts.len(),
{
    if ts.len() == 0 {
        None
    } else if channel_of(ts.last()) is Some {
        channel_of(ts.last())
    } else {
        last_channel(ts.drop_last())
    }
}

/// The edition selected by the last edition keyword of the sequence.
pub open spec fn last_edition(ts: Seq<Seq<char>>) -> Option<Edition>
    decreases ts.len(),
{
    if ts.len() == 0 {
        None
    } else if edition_of(ts.last()) is Some {
        edition_of(ts.last())
    } else {
        last_edition(ts.drop_last())
    }
}

/// The mode selected by the last mode keyword of the sequence.
pub open spec fn last_mode(ts: Seq<Seq<char>>) -> Option<Mode>
    decreases ts.len(),
{
    if ts.len() == 0 {
        None
    } else if mode_of(ts.last()) is Some {
        mode_of(ts.last())
    } else {
        last_mode(ts.drop_last())
    }
}

/// The crate type selected by the last crate-type keyword of the sequence.
pub open spec fn last_crate_type(ts: Seq<Seq<char>>) -> Option<CrateType>
    decreases ts.len(),
{
    if ts.len() == 0 {
        None
    } else if crate_type_of(ts.last()) is Some {
        crate_type_of(ts.last())
    } else {
        last_crate_type(ts.drop_last())
    }
}

/// Whether the sequence holds the test-flag keyword.
pub open spec fn has_tests(ts: Seq<Seq<char>>) -> bool
    decreases ts.len(),
{
    if ts.len() == 0 {
        false
    } else {
        lower(ts.last()) == kw_tests() || has_tests(ts.drop_last())
    }
}

/// Whether the sequence holds the backtrace-flag keyword.
pub open spec fn has_backtrace(ts: Seq<Seq<char>>) -> bool
    decreases ts.len(),
{
    if ts.len() == 0 {
        false
    } else {
        lower(ts.last()) == kw_backtrace() || has_backtrace(ts.drop_last())
    }
}

/// The parsed request, characterized field by field: each field is set by
/// the last recognized keyword of its family, and untouched when the line
/// holds none; the two boolean flags can only be switched on; the code is
/// never touched by a token.
pub proof fn lemma_parse_characterized(r: ReqView, ts: Seq<Seq<char>>)
    ensures
        parse_tokens(r, ts).channel == match last_channel(ts) {
            Some(c) => c,
            None => r.channel,
        },
        parse_tokens(r, ts).mode == match last_mode(ts) {
            Some(m) => m,
            None => r.mode,
        },
        parse_tokens(r, ts).edition == match last_edition(ts) {
            Some(e) => e,
            None => r.edition,
        },
        parse_tokens(r, ts).crate_type == match last_crate_type(ts) {
            Some(c) => c,
            None => r.crate_type,
        },
        parse_tokens(r, ts).tests == (r.tests || has_tests(ts)),
        parse_tokens(r, ts).backtrace == (r.backtrace || has_backtrace(ts)),
        parse_tokens(r, ts).code == r.code,
    decreases ts.len(),
{
    if ts.len() == 0 {
    } else {
        assert(ts =~= ts.drop_last().push(ts.last()));
        lemma_parse_tokens_push(r, ts.drop_last(), ts.last());
        lemma_parse_characterized(r, ts.drop_last());
    }
}

/// What a `last_channel` result means in terms of the tokens present.
proof fn lemma_last_channel_exists(ts: Seq<Seq<char>>)
    ensures
        match last_channel(ts) {
            Some(c) => exists|i: int| 0 <= i < ts.len() && channel_of(#[trigger] ts[i]) == Some(c),
            None => forall|i: int| 0 <= i < ts.len() ==> channel_of(#[trigger] ts[i]) is None,
        },
    decreases ts.len(),
{
    if ts.len() == 0 {
    } else {
        lemma_last_channel_exists(ts.drop_last());
        if channel_of(ts.last()) is Some {
            assert(channel_of(ts[ts.len() - 1]) == last_channel(ts));
        } else {
            match last_channel(ts.drop_last()) {
                Some(c) => {
                    let i = choose|i: int|
                        0 <= i < ts.drop_last().len() && channel_of(#[trigger] ts.drop_last()[i])
                            == Some(c);
                    assert(channel_of(ts[i]) == Some(c));
                },
                None => {
                    assert(forall|i: int|
                        0 <= i < ts.len() ==> channel_of(#[trigger] ts[i]) is None) by {
                        assert(forall|i: int|
                            0 <= i < ts.len() - 1 ==> ts.drop_last()[i] == #[trigger] ts[i]);
                    }
                },
            }
        }
    }
}

/// What a `last_mode` result means in terms of the tokens present.
proof fn lemma_last_mode_exists(ts: Seq<Seq<char>>)
    ensures
        match last_mode(ts) {
            Some(m) => exists|i: int| 0 <= i < ts.len() && mode_of(#[trigger] ts[i]) == Some(m),
            None => forall|i: int| 0 <= i < ts.len() ==> mode_of(#[trigger] ts[i]) is None,
        },
    decreases ts.len(),
{
    if ts.len() == 0 {
    } else {
        lemma_last_mode_exists(ts.drop_last());
        if mode_of(ts.last()) is Some {
            assert(mode_of(ts[ts.len() - 1]) == last_mode(ts));
        } else {
            match last_mode(ts.drop_last()) {
                Some(m) => {
                    let i = choose|i: int|
                        0 <= i < ts.drop_last().len() && mode_of(#[trigger] ts.drop_last()[i])
                            == Some(m);
                    assert(mode_of(ts[i]) == Some(m));
                },
                None => {
                    assert(forall|i: int|
                        0 <= i < ts.len() ==> mode_of(#[trigger] ts[i]) is None) by {
                        assert(forall|i: int|
                            0 <= i < ts.len() - 1 ==> ts.drop_last()[i] == #[trigger] ts[i]);
                    }
                },
            }
        }
    }
}

/// What a `last_edition` result means in terms of the tokens present.
proof fn lemma_last_edition_exists(ts: Seq<Seq<char>>)
    ensures
        match last_edition(ts) {
            Some(e) => exists|i: int| 0 <= i < ts.len() && edition_of(#[trigger] ts[i]) == Some(e),
            None => forall|i: int| 0 <= i < ts.len() ==> edition_of(#[trigger] ts[i]) is None,
        },
    decreases ts.len(),
{
    if ts.len() == 0 {
    } else {
        lemma_last_edition_exists(ts.drop_last());
        if edition_of(ts.last()) is Some {
            assert(edition_of(ts[ts.len() - 1]) == last_edition(ts));
        } else {
            match last_edition(ts.drop_last()) {
                Some(e) => {
                    let i = choose|i: int|
                        0 <= i < ts.drop_last().len() && edition_of(#[trigger] ts.drop_last()[i])
                            == Some(e);
                    assert(edition_of(ts[i]) == Some(e));
                },
                None => {
                    assert(forall|i: int|
                        0 <= i < ts.len() ==> edition_of(#[trigger] ts[i]) is None) by {
                        assert(forall|i: int|
                            0 <= i < ts.len() - 1 ==> ts.drop_last()[i] == #[trigger] ts[i]);
                    }
                },
            }
        }
    }
}

/// What a `last_crate_type` result means in terms of the tokens present.
proof fn lemma_last_crate_type_exists(ts: Seq<Seq<char>>)
    ensures
        match last_crate_type(ts) {
            Some(c) => exists|i: int|
                0 <= i < ts.len() && crate_type_of(#[trigger] ts[i]) == Some(c),
            None => forall|i: int| 0 <= i < ts.len() ==> crate_type_of(#[trigger] ts[i]) is None,
        },
    decreases ts.len(),
{
    if ts.len() == 0 {
    } else {
        lemma_last_crate_type_exists(ts.drop_last());
        if crate_type_of(ts.last()) is Some {
            assert(crate_type_of(ts[ts.len() - 1]) == last_crate_type(ts));
        } else {
            match last_crate_type(ts.drop_last()) {
                Some(c) => {
                    let i = choose|i: int|
                        0 <= i < ts.drop_last().len() && crate_type_of(
                            #[trigger] ts.drop_last()[i],
                        ) == Some(c);
                    assert(crate_type_of(ts[i]) == Some(c));
                },
                None => {
                    assert(forall|i: int|
                        0 <= i < ts.len() ==> crate_type_of(#[trigger] ts[i]) is None) by {
                        assert(forall|i: int|
                            0 <= i < ts.len() - 1 ==> ts.drop_last()[i] == #[trigger] ts[i]);
                    }
                },
            }
        }
    }
}

/// The test flag is set exactly when the keyword occurs somewhere.
proof fn lemma_has_tests_exists(ts: Seq<Seq<char>>)
    ensures
        has_tests(ts) <==> exists|i: int|
            0 <= i < ts.len() && lower(#[trigger] ts[i]) == kw_tests(),
    decreases ts.len(),
{
    if ts.len() == 0 {
    } else {
        lemma_has_tests_exists(ts.drop_last());
        if lower(ts.last()) == kw_tests() {
            assert(lower(ts[ts.len() - 1]) == kw_tests());
        } else if has_tests(ts.drop_last()) {
            let i = choose|i: int|
                0 <= i < ts.drop_last().len() && lower(#[trigger] ts.drop_last()[i]) == kw_tests();
            assert(lower(ts[i]) == kw_tests());
        } else {
            assert(forall|i: int|
                0 <= i < ts.len() ==> lower(#[trigger] ts[i]) != kw_tests()) by {
                assert(forall|i: int|
                    0 <= i < ts.len() - 1 ==> ts.drop_last()[i] == #[trigger] ts[i]);
            }
        }
    }
}

/// The backtrace flag is set exactly when the keyword occurs somewhere.
proof fn lemma_has_backtrace_exists(ts: Seq<Seq<char>>)
    ensures
        has_backtrace(ts) <==> exists|i: int|
            0 <= i < ts.len() && lower(#[trigger] ts[i]) == kw_backtrace(),
    decreases ts.len(),
{
    if ts.len() == 0 {
    } else {
        lemma_has_backtrace_exists(ts.drop_last());
        if lower(ts.last()) == kw_backtrace() {
            assert(lower(ts[ts.len() - 1]) == kw_backtrace());
        } else if has_backtrace(ts.drop_last()) {
            let i = choose|i: int|
                0 <= i < ts.drop_last().len() && lower(#[trigger] ts.drop_last()[i])
                    == kw_backtrace();
            assert(lower(ts[i]) == kw_backtrace());
        } else {
            assert(forall|i: int|
                0 <= i < ts.len() ==> lower(#[trigger] ts[i]) != kw_backtrace()) by {
                assert(forall|i: int|
                    0 <= i < ts.len() - 1 ==> ts.drop_last()[i] == #[trigger] ts[i]);
            }
        }
    }
}

/// A line whose recognized keywords never conflict: any two tokens of the
/// same family select the same value.
pub open spec fn non_conflicting(ts: Seq<Seq<char>>) -> bool {
    &&& forall|i: int, j: int|
        0 <= i < ts.len() && 0 <= j < ts.len() && channel_of(#[trigger] ts[i]) is Some
            && channel_of(#[trigger] ts[j]) is Some ==> channel_of(ts[i]) == channel_of(ts[j])
    &&& forall|i: int, j: int|
        0 <= i < ts.len() && 0 <= j < ts.len() && mode_of(#[trigger] ts[i]) is Some && mode_of(
            #[trigger] ts[j],
        ) is Some ==> mode_of(ts[i]) == mode_of(ts[j])
    &&& forall|i: int, j: int|
        0 <= i < ts.len() && 0 <= j < ts.len() && edition_of(#[trigger] ts[i]) is Some
            && edition_of(#[trigger] ts[j]) is Some ==> edition_of(ts[i]) == edition_of(ts[j])
    &&& forall|i: int, j: int|
        0 <= i < ts.len() && 0 <= j < ts.len() && crate_type_of(#[trigger] ts[i]) is Some
            && crate_type_of(#[trigger] ts[j]) is Some ==> crate_type_of(ts[i]) == crate_type_of(
            ts[j],
        )
}

/// Order independence among non-conflicting flags: two lines made of the
/// same tokens, in any order, parse to the same request as long as no two
/// recognized keywords of one family disagree.
pub proof fn lemma_parse_permutation(r: ReqView, ts1: Seq<Seq<char>>, ts2: Seq<Seq<char>>)
    requires
        ts1.to_multiset() == ts2.to_multiset(),
        non_conflicting(ts1),
    ensures
        parse_tokens(r, ts1) == parse_tokens(r, ts2),
{
    ts1.to_multiset_ensures();
    ts2.to_multiset_ensures();
    assert(forall|t: Seq<char>| ts1.contains(t) <==> ts2.contains(t)) by {
        assert(forall|t: Seq<char>|
            #[trigger] ts1.contains(t) <==> ts1.to_multiset().count(t) > 0);
        assert(forall|t: Seq<char>|
            #[trigger] ts2.contains(t) <==> ts2.to_multiset().count(t) > 0);
    }
    lemma_parse_characterized(r, ts1);
    lemma_parse_characterized(r, ts2);
    lemma_last_channel_exists(ts1);
    lemma_last_channel_exists(ts2);
    lemma_last_mode_exists(ts1);
    lemma_last_mode_exists(ts2);
    lemma_last_edition_exists(ts1);
    lemma_last_edition_exists(ts2);
    lemma_last_crate_type_exists(ts1);
    lemma_last_crate_type_exists(ts2);
    lemma_has_tests_exists(ts1);
    lemma_has_tests_exists(ts2);
    lemma_has_backtrace_exists(ts1);
    lemma_has_backtrace_exists(ts2);
    match (last_channel(ts1), last_channel(ts2)) {
        (Some(c1), Some(c2)) => {
            let i1 = choose|i: int|
                0 <= i < ts1.len() && channel_of(#[trigger] ts1[i]) == Some(c1);
            let i2 = choose|i: int|
                0 <= i < ts2.len() && channel_of(#[trigger] ts2[i]) == Some(c2);
            assert(ts1.contains(ts2[i2]));
            let j2 = choose|j: int| 0 <= j < ts1.len() && ts1[j] == ts2[i2];
            assert(channel_of(ts1[i1]) == channel_of(ts1[j2]));
        },
        (Some(c1), None) => {
            let i1 = choose|i: int|
                0 <= i < ts1.len() && channel_of(#[trigger] ts1[i]) == Some(c1);
            assert(ts2.contains(ts1[i1]));
            let j1 = choose|j: int| 0 <= j < ts2.len() && ts2[j] == ts1[i1];
            assert(channel_of(ts2[j1]) is None);
        },
        (None, Some(c2)) => {
            let i2 = choose|i: int|
                0 <= i < ts2.len() && channel_of(#[trigger] ts2[i]) == Some(c2);
            assert(ts1.contains(ts2[i2]));
            let j2 = choose|j: int| 0 <= j < ts1.len() && ts1[j] == ts2[i2];
            assert(channel_of(ts1[j2]) is None);
        },
        (None, None) => {},
    }
    match (last_mode(ts1), last_mode(ts2)) {
        (Some(m1), Some(m2)) => {
            let i1 = choose|i: int| 0 <= i < ts1.len() && mode_of(#[trigger] ts1[i]) == Some(m1);
            let i2 = choose|i: int| 0 <= i < ts2.len() && mode_of(#[trigger] ts2[i]) == Some(m2);
            assert(ts1.contains(ts2[i2]));
            let j2 = choose|j: int| 0 <= j < ts1.len() && ts1[j] == ts2[i2];
            assert(mode_of(ts1[i1]) == mode_of(ts1[j2]));
        },
        (Some(m1), None) => {
            let i1 = choose|i: int| 0 <= i < ts1.len() && mode_of(#[trigger] ts1[i]) == Some(m1);
            assert(ts2.contains(ts1[i1]));
            let j1 = choose|j: int| 0 <= j < ts2.len() && ts2[j] == ts1[i1];
            assert(mode_of(ts2[j1]) is None);
        },
        (None, Some(m2)) => {
            let i2 = choose|i: int| 0 <= i < ts2.len() && mode_of(#[trigger] ts2[i]) == Some(m2);
            assert(ts1.contains(ts2[i2]));
            let j2 = choose|j: int| 0 <= j < ts1.len() && ts1[j] == ts2[i2];
            assert(mode_of(ts1[j2]) is None);
        },
        (None, None) => {},
    }
    match (last_edition(ts1), last_edition(ts2)) {
        (Some(e1), Some(e2)) => {
            let i1 = choose|i: int|
                0 <= i < ts1.len() && edition_of(#[trigger] ts1[i]) == Some(e1);
            let i2 = choose|i: int|
                0 <= i < ts2.len() && edition_of(#[trigger] ts2[i]) == Some(e2);
            assert(ts1.contains(ts2[i2]));
            let j2 = choose|j: int| 0 <= j < ts1.len() && ts1[j] == ts2[i2];
            assert(edition_of(ts1[i1]) == edition_of(ts1[j2]));
        },
        (Some(e1), None) => {
            let i1 = choose|i: int|
                0 <= i < ts1.len() && edition_of(#[trigger] ts1[i]) == Some(e1);
            assert(ts2.contains(ts1[i1]));
            let j1 = choose|j: int| 0 <= j < ts2.len() && ts2[j] == ts1[i1];
            assert(edition_of(ts2[j1]) is None);
        },
        (None, Some(e2)) => {
            let i2 = choose|i: int|
                0 <= i < ts2.len() && edition_of(#[trigger] ts2[i]) == Some(e2);
            assert(ts1.contains(ts2[i2]));
            let j2 = choose|j: int| 0 <= j < ts1.len() && ts1[j] == ts2[i2];
            assert(edition_of(ts1[j2]) is None);
        },
        (None, None) => {},
    }
    match (last_crate_type(ts1), last_crate_type(ts2)) {
        (Some(c1), Some(c2)) => {
            let i1 = choose|i: int|
                0 <= i < ts1.len() && crate_type_of(#[trigger] ts1[i]) == Some(c1);
            let i2 = choose|i: int|
                0 <= i < ts2.len() && crate_type_of(#[trigger] ts2[i]) == Some(c2);
            assert(ts1.contains(ts2[i2]));
            let j2 = choose|j: int| 0 <= j < ts1.len() && ts1[j] == ts2[i2];
            assert(crate_type_of(ts1[i1]) == crate_type_of(ts1[j2]));
        },
        (Some(c1), None) => {
            let i1 = choose|i: int|
                0 <= i < ts1.len() && crate_type_of(#[trigger] ts1[i]) == Some(c1);
            assert(ts2.contains(ts1[i1]));
            let j1 = choose|j: int| 0 <= j < ts2.len() && ts2[j] == ts1[i1];
            assert(crate_type_of(ts2[j1]) is None);
        },
        (None, Some(c2)) => {
            let i2 = choose|i: int|
                0 <= i < ts2.len() && crate_type_of(#[trigger] ts2[i]) == Some(c2);
            assert(ts1.contains(ts2[i2]));
            let j2 = choose|j: int| 0 <= j < ts1.len() && ts1[j] == ts2[i2];
            assert(crate_type_of(ts1[j2]) is None);
        },
        (None, None) => {},
    }
    assert(has_tests(ts1) == has_tests(ts2)) by {
        if has_tests(ts1) {
            let i = choose|i: int| 0 <= i < ts1.len() && lower(#[trigger] ts1[i]) == kw_tests();
            assert(ts2.contains(ts1[i]));
            let j = choose|j: int| 0 <= j < ts2.len() && ts2[j] == ts1[i];
            assert(lower(ts2[j]) == kw_tests());
        }
        if has_tests(ts2) {
            let i = choose|i: int| 0 <= i < ts2.len() && lower(#[trigger] ts2[i]) == kw_tests();
            assert(ts1.contains(ts2[i]));
            let j = choose|j: int| 0 <= j < ts1.len() && ts1[j] == ts2[i];
            assert(lower(ts1[j]) == kw_tests());
        }
    }
    assert(has_backtrace(ts1) == has_backtrace(ts2)) by {
        if has_backtrace(ts1) {
            let i = choose|i: int|
                0 <= i < ts1.len() && lower(#[trigger] ts1[i]) == kw_backtrace();
            assert(ts2.contains(ts1[i]));
            let j = choose|j: int| 0 <= j < ts2.len() && ts2[j] == ts1[i];
            assert(lower(ts2[j]) == kw_backtrace());
        }
        if has_backtrace(ts2) {
            let i = choose|i: int|
                0 <= i < ts2.len() && lower(#[trigger] ts2[i]) == kw_backtrace();
            assert(ts1.contains(ts2[i]));
            let j = choose|j: int| 0 <= j < ts1.len() && ts1[j] == ts2[i];
            assert(lower(ts1[j]) == kw_backtrace());
        }
    }
    assert(parse_tokens(r, ts1) =~= parse_tokens(r, ts2));
}

/// Tokens of different families commute.
pub proof fn lemma_apply_commutes(r: ReqView, a: Seq<char>, b: Seq<char>)
    requires
        token_family(a) is None || token_family(b) is None || token_family(a) != token_family(b),
    ensures
        apply_token(apply_token(r, a), b) == apply_token(apply_token(r, b), a),
{
    assert(apply_token(apply_token(r, a), b) =~= apply_token(apply_token(r, b), a));
}

/// Order independence of non-conflicting flags: swapping two adjacent
/// tokens of different families (or unrecognized ones) anywhere in the
/// line leaves the parsed request unchanged. Every permutation of a line
/// whose recognized keywords touch pairwise different fields is a chain of
/// such swaps, so all of them parse alike.
pub proof fn lemma_token_order_independent(
    r: ReqView,
    ts1: Seq<Seq<char>>,
    a: Seq<char>,
    b: Seq<char>,
    ts2: Seq<Seq<char>>,
)
    requires
        token_family(a) is None || token_family(b) is None || token_family(a) != token_family(b),
    ensures
        parse_tokens(r, ts1 + seq![a, b] + ts2) == parse_tokens(r, ts1 + seq![b, a] + ts2),
    decreases ts1.len(),
{
    if ts1.len() == 0 {
        let sab = ts1 + seq![a, b] + ts2;
        let sba = ts1 + seq![b, a] + ts2;
        assert(sab[0] == a);
        assert(sab.drop_first()[0] == b);
        assert(sab.drop_first().drop_first() =~= ts2);
        assert(sba[0] == b);
        assert(sba.drop_first()[0] == a);
        assert(sba.drop_first().drop_first() =~= ts2);
        lemma_apply_commutes(r, a, b);
        assert(parse_tokens(r, sab) == parse_tokens(apply_token(r, a), sab.drop_first()));
        assert(parse_tokens(apply_token(r, a), sab.drop_first()) == parse_tokens(
            apply_token(apply_token(r, a), b),
            ts2,
        ));
        assert(parse_tokens(r, sba) == parse_tokens(apply_token(r, b), sba.drop_first()));
        assert(parse_tokens(apply_token(r, b), sba.drop_first()) == parse_tokens(
            apply_token(apply_token(r, b), a),
            ts2,
        ));
    } else {
        let h = ts1[0];
        let sab = ts1 + seq![a, b] + ts2;
        let sba = ts1 + seq![b, a] + ts2;
        assert(sab[0] == h);
        assert(sba[0] == h);
        assert(sab.drop_first() =~= ts1.drop_first() + seq![a, b] + ts2);
        assert(sba.drop_first() =~= ts1.drop_first() + seq![b, a] + ts2);
        lemma_token_order_independent(apply_token(r, h), ts1.drop_first(), a, b, ts2);
        assert(parse_tokens(r, sab) == parse_tokens(apply_token(r, h), sab.drop_first()));
        assert(parse_tokens(r, sba) == parse_tokens(apply_token(r, h), sba.drop_first()));
    }
}

} // verus!
