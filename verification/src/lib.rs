//! Core of a chat-bot that runs user-submitted code snippets on a remote
//! execution backend: code extraction from fenced blocks, configuration
//! token parsing, reference resolution, a TTL key-value cache, and
//! byte-accurate output truncation.

pub mod common;
pub mod cache;
pub mod commands;
pub mod request;
pub mod error;
pub mod error_codes;
pub mod extract_code;
pub mod text;
