//! User-correctable command errors and the messages shown for them.

use vstd::prelude::*;
use crate::text::{chars_to_string, dec_digits, push_dec};

verus! {

/// An error of one command invocation that the user can correct.
#[derive(Debug, Clone)]
pub enum CommandError {
    /// The message holds no fenced code block.
    NoCodeBlock,
    /// The named crate does not exist in the registry.
    CrateNotFound(String),
    /// The given compiler error code is unknown.
    InvalidErrorCode(String),
    /// The given reference holds no 32-character hexadecimal identifier.
    InvalidId(String),
    /// The uploaded file does not have the expected extension.
    NotValidFile(String),
    /// The uploaded file is not valid UTF-8.
    NotValidUTF8,
    /// The uploaded code exceeds the configured maximum size, actual then
    /// maximum, in bytes.
    CodeTooLong(u32, u32),
}

/// The message shown to the user for each error.
pub open spec fn user_message_spec(e: &CommandError) -> Seq<char> {
    match e {
        CommandError::NoCodeBlock => {
            "Please provide a code block with the following syntax:\n\\`\\`\\`rust\n/* your rust code */\n\\`\\`\\`"@
        },
        CommandError::CrateNotFound(name) => "Crate `"@ + name@ + "` does not exist!"@,
        CommandError::InvalidErrorCode(code) => "Invalid error code `"@ + code@
            + "`! Please pass in a valid rustc error code."@,
        CommandError::InvalidId(id) => "The ID `"@ + id@
            + "` is invalid. Please provide a valid 32-byte hexadecimal GitHub Gist ID. Accepted formats include the raw ID, the full Gist URL, or the Gist embed snippet."@,
        CommandError::NotValidFile(name) => "`"@ + name@
            + "` is not a valid filetype. Needs to be a `.rs` file."@,
        CommandError::NotValidUTF8 => "The file doesn't contain valid UTF-8 characters"@,
        CommandError::CodeTooLong(actual, max) => "Your code is too large: **"@ + dec_digits(
            *actual as nat,
        ) + "** bytes. The maximum allowed size is **"@ + dec_digits(*max as nat) + "** bytes."@,
    }
}

impl CommandError {
    /// The actionable message surfaced verbatim to the user.
    pub fn user_message(&self) -> (r: String)
        ensures
            r@ == user_message_spec(self),
    {
        match self {
            CommandError::NoCodeBlock => {
                let mut m = String::new();
                m.append(
                    "Please provide a code block with the following syntax:\n\\`\\`\\`rust\n/* your rust code */\n\\`\\`\\`",
                );
                m
            },
            CommandError::CrateNotFound(name) => {
                let mut m = String::new();
                m.append("Crate `");
                m.append(name.as_str());
                m.append("` does not exist!");
                m
            },
            CommandError::InvalidErrorCode(code) => {
                let mut m = String::new();
                m.append("Invalid error code `");
                m.append(code.as_str());
                m.append("`! Please pass in a valid rustc error code.");
                m
            },
            CommandError::InvalidId(id) => {
                let mut m = String::new();
                m.append("The ID `");
                m.append(id.as_str());
                m.append(
                    "` is invalid. Please provide a valid 32-byte hexadecimal GitHub Gist ID. Accepted formats include the raw ID, the full Gist URL, or the Gist embed snippet.",
                );
                m
            },
            CommandError::NotValidFile(name) => {
                let mut m = String::new();
                m.append("`");
                m.append(name.as_str());
                m.append("` is not a valid filetype. Needs to be a `.rs` file.");
                m
            },
            CommandError::NotValidUTF8 => {
                let mut m = String::new();
                m.append("The file doesn't contain valid UTF-8 characters");
                m
            },
            CommandError::CodeTooLong(actual, max) => {
                let mut m = String::new();
                m.append("Your code is too large: **");
                let mut digits: Vec<char> = Vec::new();
                push_dec(*actual as u64, &mut digits);
                let actual_str = chars_to_string(&digits);
                m.append(actual_str.as_str());
                m.append("** bytes. The maximum allowed size is **");
                let mut digits2: Vec<char> = Vec::new();
                push_dec(*max as u64, &mut digits2);
                let max_str = chars_to_string(&digits2);
                m.append(max_str.as_str());
                m.append("** bytes.");
                assert(digits@ =~= dec_digits(*actual as nat));
                assert(digits2@ =~= dec_digits(*max as nat));
                m
            },
        }
    }
}

} // verus!
