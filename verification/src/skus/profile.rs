//! The browser's release channels.

use vstd::prelude::*;

verus! {

/// A release channel of the browser. Each has its own profile and its own imported batch.
#[derive(Debug, Clone, Copy, PartialEq, Eq, Structural)]
pub enum Channel {
    Stable,
    Beta,
    Nightly,
}

impl Channel {
    /// The channel's name.
    pub open spec fn name(self) -> Seq<char> {
        match self {
            Channel::Stable => "stable"@,
            Channel::Beta => "beta"@,
            Channel::Nightly => "nightly"@,
        }
    }

    /// The channel's name.
    pub fn as_str(self) -> (r: &'static str)
        ensures
            r@ == self.name(),
    {
        match self {
            Channel::Stable => "stable",
            Channel::Beta => "beta",
            Channel::Nightly => "nightly",
        }
    }
}

/// No two channels share a name.
pub proof fn law_channel_names_differ(a: Channel, b: Channel)
    requires
        a != b,
    ensures
        a.name() != b.name(),
{
    reveal_strlit("stable");
    reveal_strlit("beta");
    reveal_strlit("nightly");
    assert("stable"@.len() == 6 && "beta"@.len() == 4 && "nightly"@.len() == 7);
}

} // verus!
