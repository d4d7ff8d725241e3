//! Reasons for banning a peer: a ban writes a time-bounded record so future
//! connections from the same address or token are rejected at accept time.

use vstd::prelude::*;

verus! {

/// The numeric close code for a policy violation, shared by every ban.
pub const POLICY_CODE: u16 = 1008;

/// Why a peer is banned.
#[derive(Debug, Clone, Copy, PartialEq, Eq, Hash, Structural)]
pub enum Reason {
    Banned,
    TooManyKicks,
    InvalidToken,
}

impl Reason {
    /// Every ban closes with the transport's policy-violation code.
    pub open spec fn code_spec(&self) -> u16 {
        POLICY_CODE
    }

    /// The description string for this reason.
    pub open spec fn description_spec(&self) -> Seq<char> {
        match self {
            Reason::Banned => "banned"@,
            Reason::TooManyKicks => "too many kicks"@,
            Reason::InvalidToken => "invalid token"@,
        }
    }

    /// The numeric close code carried to the peer.
    pub fn code(&self) -> (c: u16)
        ensures
            c == self.code_spec(),
    {
        POLICY_CODE
    }

    /// The human-readable description carried to the peer and the log.
    pub fn description(&self) -> (d: &'static str)
        ensures
            d@ == self.description_spec(),
    {
        match self {
            Reason::Banned => "banned",
            Reason::TooManyKicks => "too many kicks",
            Reason::InvalidToken => "invalid token",
        }
    }
}

} // verus!
