//! The decision logic of the chat commands: configuration parsing and the
//! pure steps of each command flow. The surrounding program performs the
//! remote calls these decisions ask for and feeds the answers back in.

pub mod crates;
pub mod docs;
pub mod file;
pub mod gist;
pub mod krate;
pub mod miri;
pub mod run;
pub mod share;
pub mod version;
