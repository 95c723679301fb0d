//! Decisions of the toolchain-version command: the cache key of the
//! version record and the selection of one channel's tool versions.

use vstd::prelude::*;
use crate::request::Channel;

verus! {

/// The tool versions of one release channel.
#[derive(Debug, Clone)]
pub struct ChannelVersions {
    pub rustc: String,
    pub clippy: String,
    pub rustfmt: String,
    pub miri: Option<String>,
}

/// The tool versions of every release channel.
#[derive(Debug, Clone)]
pub struct VersionsInfo {
    pub stable: ChannelVersions,
    pub beta: ChannelVersions,
    pub nightly: ChannelVersions,
}

/// The cache key of the version record.
pub open spec fn version_key_spec() -> Seq<char> {
    "version"@
}

/// Builds the cache key of the version record.
pub fn version_cache_key() -> (r: String)
    ensures
        r@ == version_key_spec(),
{
    let mut k = String::new();
    k.append("version");
    k
}

/// The versions of the requested channel.
pub open spec fn channel_versions_spec(v: &VersionsInfo, channel: Channel) -> &ChannelVersions {
    match channel {
        Channel::Stable => &v.stable,
        Channel::Beta => &v.beta,
        Channel::Nightly => &v.nightly,
    }
}

/// Selects the tool versions of the requested channel.
pub fn select_versions<'a>(v: &'a VersionsInfo, channel: Channel) -> (r: &'a ChannelVersions)
    ensures
        r == channel_versions_spec(v, channel),
{
    match channel {
        Channel::Stable => &v.stable,
        Channel::Beta => &v.beta,
        Channel::Nightly => &v.nightly,
    }
}

} // verus!
