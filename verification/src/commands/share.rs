//! Decisions of the publish flow: the code to upload and the confirmation
//! reply linking the created snippet.

use vstd::prelude::*;
use crate::common::extract_code::{extract_code, extract_spec};
use crate::error::CommandError;

verus! {

/// Pulls the code to publish out of the message: the first `rust`-tagged
/// fenced block, trimmed; a message without one is rejected.
pub fn publish_code(input: &str) -> (r: Result<String, CommandError>)
    ensures
        match r {
            Ok(code) => extract_spec(input@) == Some(code@),
            Err(e) => e is NoCodeBlock && extract_spec(input@) is None,
        },
{
    extract_code(input)
}

/// What the confirmation reply of a publish says.
pub open spec fn publish_reply_spec(id: Seq<char>, url: Seq<char>) -> Seq<char> {
    "Done uploading your code to GitHub Gists [#"@ + id + "](<"@ + url + ">)"@
}

/// Renders the confirmation reply of a publish: a link to the snippet
/// that was created.
pub fn publish_reply(id: &str, url: &str) -> (r: String)
    ensures
        r@ == publish_reply_spec(id@, url@),
{
    let mut m = String::new();
    m.append("Done uploading your code to GitHub Gists [#");
    m.append(id);
    m.append("](<");
    m.append(url);
    m.append(">)");
    m
}

} // verus!
