//! Decisions of the run-from-upload flow: file-name and size validation
//! before any remote call, UTF-8 decoding of the uploaded bytes, and the
//! reply referencing the file.

use vstd::prelude::*;
use vstd::utf8::{decode_utf8, valid_utf8};
use crate::common::limit_content::{limit_spec, limit_string};
use crate::commands::run::{OUTPUT_MAX_BYTES, OUTPUT_MAX_LINES};
use crate::error::CommandError;
use crate::request::{ExecutionResult, result_content};
use crate::text::{matches_at, occurs_at, str_to_chars};

verus! {

/// The file-name suffix of an accepted upload.
pub open spec fn rs_suffix() -> Seq<char> {
    seq!['.', 'r', 's']
}

/// An accepted upload name ends in `.rs`.
pub open spec fn valid_upload_name(name: Seq<char>) -> bool {
    matches_at(name, rs_suffix(), name.len() - 3)
}

/// Validates an upload before any backend call: the name must end in
/// `.rs`, and the size must not exceed the configured maximum. A file too
/// large is rejected with an error naming both the actual and the maximum
/// size.
pub fn validate_upload(filename: &str, size: u32, max_size: u32) -> (r: Result<
    (),
    CommandError,
>)
    ensures
        match r {
            Ok(()) => valid_upload_name(filename@) && size <= max_size,
            Err(e) => match e {
                CommandError::NotValidFile(name) => !valid_upload_name(filename@) && name@
                    == filename@,
                CommandError::CodeTooLong(actual, max) => valid_upload_name(filename@) && size
                    > max_size && actual == size && max == max_size,
                _ => false,
            },
        },
{
    let chars = str_to_chars(filename);
    let suffix = str_to_chars(".rs");
    proof {
        reveal_strlit(".rs");
        assert(suffix@ =~= rs_suffix());
    }
    let n = chars.len();
    let ok_name = if n >= 3 {
        occurs_at(&chars, &suffix, n - 3)
    } else {
        proof {
            assert(!valid_upload_name(filename@));
        }
        false
    };
    if !ok_name {
        let mut name = String::new();
        name.append(filename);
        return Err(CommandError::NotValidFile(name));
    }
    if size > max_size {
        return Err(CommandError::CodeTooLong(size, max_size));
    }
    Ok(())
}

/// Relies on `String::from_utf8`: succeeds exactly on valid UTF-8 input
/// and returns the decoded characters of the given bytes.
#[verifier::external_body]
fn utf8_to_string(bytes: Vec<u8>) -> (r: Option<String>)
    ensures
        r is Some <==> valid_utf8(bytes@),
        r is Some ==> r->0@ == decode_utf8(bytes@),
{
    match String::from_utf8(bytes) {
        Ok(s) => Some(s),
        Err(_) => None,
    }
}

/// Decodes uploaded bytes as UTF-8 source text; anything else is rejected.
pub fn decode_upload(bytes: Vec<u8>) -> (r: Result<String, CommandError>)
    ensures
        match r {
            Ok(code) => valid_utf8(bytes@) && code@ == decode_utf8(bytes@),
            Err(e) => e is NotValidUTF8 && !valid_utf8(bytes@),
        },
{
    match utf8_to_string(bytes) {
        Some(code) => Ok(code),
        None => Err(CommandError::NotValidUTF8),
    }
}

/// What the reply to an upload run says: the kept output linked back to
/// the uploaded file, or an explicit no-output message.
pub open spec fn file_reply_spec(
    filename: Seq<char>,
    url: Seq<char>,
    success: bool,
    stdout: Seq<char>,
    stderr: Seq<char>,
) -> Seq<char> {
    let content = limit_spec(
        result_content(success, stdout, stderr),
        OUTPUT_MAX_LINES as nat,
        OUTPUT_MAX_BYTES as nat,
    );
    if content.len() > 0 {
        "Running the code from ["@ + filename + "](<"@ + url
            + ">) gave the following output\n```"@ + content + "```"@
    } else {
        "Running the code from ["@ + filename + "](<"@ + url + ">) gave no output"@
    }
}

/// Renders the reply to an upload run from the backend result.
pub fn file_reply(filename: &str, url: &str, result: &ExecutionResult) -> (r: String)
    ensures
        r@ == file_reply_spec(filename@, url@, result.success, result.stdout@, result.stderr@),
{
    let content = if result.success {
        limit_string(result.stdout.as_str(), OUTPUT_MAX_LINES, OUTPUT_MAX_BYTES)
    } else {
        limit_string(result.stderr.as_str(), OUTPUT_MAX_LINES, OUTPUT_MAX_BYTES)
    };
    let mut m = String::new();
    m.append("Running the code from [");
    m.append(filename);
    m.append("](<");
    m.append(url);
    if !content.as_str().is_empty() {
        m.append(">) gave the following output\n```");
        m.append(content.as_str());
        m.append("```");
    } else {
        m.append(">) gave no output");
    }
    m
}

} // verus!
