//! Decisions of the documentation-search command: the searchable sources
//! and the accent colour of each.

use vstd::prelude::*;

verus! {

/// The documentation indexes a search can run against.
#[derive(Debug, Clone, Copy, PartialEq, Eq, Structural)]
pub enum Krate {
    Std,
    Core,
    Alloc,
}

/// The accent colour shown for each documentation source.
pub open spec fn krate_color_spec(k: Krate) -> u32 {
    match k {
        Krate::Std => 0x1E88E5,
        Krate::Alloc => 0x8E24AA,
        Krate::Core => 0xF4511E,
    }
}

impl Krate {
    /// The accent colour shown for this documentation source.
    pub fn color(&self) -> (r: u32)
        ensures
            r == krate_color_spec(*self),
    {
        match self {
            Krate::Std => 0x1E88E5,
            Krate::Alloc => 0x8E24AA,
            Krate::Core => 0xF4511E,
        }
    }
}

} // verus!
