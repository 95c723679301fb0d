//! Decisions of the run-from-reference flow: resolving the reference to a
//! canonical identifier, the cache key and time-to-live of a fetched
//! snippet, the request built from structured options, and the reply.

use vstd::prelude::*;
use crate::common::hex::{extract_32byte_hex, hex_spec};
use crate::common::limit_content::{limit_spec, limit_string};
use crate::commands::run::{OUTPUT_MAX_BYTES, OUTPUT_MAX_LINES};
use crate::error::CommandError;
use crate::request::{
    Channel, CrateType, Edition, ExecuteRequest, ExecutionResult, Gist, Mode, ReqView,
    result_content,
};

verus! {

/// How long a fetched resource stays cached, in seconds.
pub const RESOURCE_TTL_SECONDS: u64 = 86400;

/// Resolves a user-supplied reference to the canonical 32-character
/// hexadecimal identifier; a reference without one is rejected with the
/// original input echoed back.
pub fn resolve_gist_id(id: &str) -> (r: Result<String, CommandError>)
    ensures
        match r {
            Ok(resolved) => hex_spec(id@) == Some(resolved@),
            Err(e) => hex_spec(id@) is None && (e matches CommandError::InvalidId(orig)
                && orig@ == id@),
        },
{
    match extract_32byte_hex(id) {
        Some(resolved) => Ok(resolved),
        None => {
            let mut orig = String::new();
            orig.append(id);
            Err(CommandError::InvalidId(orig))
        },
    }
}

/// The cache key of a snippet: `gist::` followed by its identifier.
pub open spec fn gist_key_spec(id: Seq<char>) -> Seq<char> {
    "gist::"@ + id
}

/// Builds the cache key of a snippet.
pub fn gist_cache_key(id: &str) -> (r: String)
    ensures
        r@ == gist_key_spec(id@),
{
    let mut k = String::new();
    k.append("gist::");
    k.append(id);
    k
}

/// Builds the execution request of a by-reference or upload run from the
/// caller-supplied structured options, filling every omitted option with
/// its canonical default; the code is injected later.
pub fn config_from_options(
    channel: Option<Channel>,
    mode: Option<Mode>,
    edition: Option<Edition>,
    crate_type: Option<CrateType>,
    tests: Option<bool>,
    backtrace: Option<bool>,
) -> (r: ExecuteRequest)
    ensures
        r@ == (ReqView {
            channel: channel.unwrap_or(Channel::Stable),
            mode: mode.unwrap_or(Mode::Debug),
            edition: edition.unwrap_or(Edition::Edition2024),
            crate_type: crate_type.unwrap_or(CrateType::Binary),
            tests: tests.unwrap_or(false),
            backtrace: backtrace.unwrap_or(false),
            code: Seq::<char>::empty(),
        }),
{
    ExecuteRequest::new(
        match channel {
            Some(c) => c,
            None => Channel::Stable,
        },
        match mode {
            Some(m) => m,
            None => Mode::Debug,
        },
        match edition {
            Some(e) => e,
            None => Edition::Edition2024,
        },
        match crate_type {
            Some(c) => c,
            None => CrateType::Binary,
        },
        match tests {
            Some(t) => t,
            None => false,
        },
        match backtrace {
            Some(b) => b,
            None => false,
        },
        String::new(),
    )
}

/// Injects fetched code into a prepared request, leaving every other
/// field as configured.
pub fn request_with_code(config: ExecuteRequest, code: String) -> (r: ExecuteRequest)
    ensures
        r@ == (ReqView { code: code@, ..config@ }),
{
    ExecuteRequest {
        channel: config.channel,
        mode: config.mode,
        edition: config.edition,
        crate_type: config.crate_type,
        tests: config.tests,
        backtrace: config.backtrace,
        code,
    }
}

/// What the reply to a by-reference run says: the kept output linked back
/// to the snippet it came from, or an explicit no-output message.
pub open spec fn gist_reply_spec(
    id: Seq<char>,
    url: Seq<char>,
    success: bool,
    stdout: Seq<char>,
    stderr: Seq<char>,
) -> Seq<char> {
    let content = limit_spec(
        result_content(success, stdout, stderr),
        OUTPUT_MAX_LINES as nat,
        OUTPUT_MAX_BYTES as nat,
    );
    if content.len() > 0 {
        "Running the code from [#"@ + id + "](<"@ + url + ">) gave the following output\n```"@
            + content + "```"@
    } else {
        "Running the code from [#"@ + id + "](<"@ + url + ">) gave no output"@
    }
}

/// Renders the reply to a by-reference run from the backend result.
pub fn gist_reply(gist: &Gist, result: &ExecutionResult) -> (r: String)
    ensures
        r@ == gist_reply_spec(
            gist.id@,
            gist.url@,
            result.success,
            result.stdout@,
            result.stderr@,
        ),
{
    let content = if result.success {
        limit_string(result.stdout.as_str(), OUTPUT_MAX_LINES, OUTPUT_MAX_BYTES)
    } else {
        limit_string(result.stderr.as_str(), OUTPUT_MAX_LINES, OUTPUT_MAX_BYTES)
    };
    let mut m = String::new();
    m.append("Running the code from [#");
    m.append(gist.id.as_str());
    m.append("](<");
    m.append(gist.url.as_str());
    if !content.as_str().is_empty() {
        m.append(">) gave the following output\n```");
        m.append(content.as_str());
        m.append("```");
    } else {
        m.append(">) gave no output");
    }
    m
}

} // verus!
