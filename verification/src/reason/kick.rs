//! Reasons for kicking a connection: each carries a numeric close code and a
//! human-readable description delivered through the transport's close
//! mechanism.

use vstd::prelude::*;

verus! {

/// Why a connection is kicked. A kick terminates the connection and counts
/// toward the offender's ban threshold.
#[derive(Debug, Clone, Copy, PartialEq, Eq, Hash, Structural)]
pub enum Reason {
    HeartbeatTimeout,
    ResponseTimeout,
    RateLimit,
    TooManyConnections,
    UnexpectedPacket,
    InvalidPacket,
    IncorrectDataFormat,
}

impl Reason {
    /// The numeric close code for this reason.
    pub open spec fn code_spec(&self) -> u16 {
        match self {
            Reason::HeartbeatTimeout => 4001,
            Reason::ResponseTimeout => 4002,
            Reason::RateLimit => 4003,
            Reason::TooManyConnections => 4004,
            Reason::UnexpectedPacket => 4005,
            Reason::InvalidPacket => 4006,
            Reason::IncorrectDataFormat => 4007,
        }
    }

    /// The description string for this reason.
    pub open spec fn description_spec(&self) -> Seq<char> {
        match self {
            Reason::HeartbeatTimeout => "heartbeat timeout"@,
            Reason::ResponseTimeout => "response timeout"@,
            Reason::RateLimit => "rate limit"@,
            Reason::TooManyConnections => "too many connections"@,
            Reason::UnexpectedPacket => "unexpected packet"@,
            Reason::InvalidPacket => "invalid packet"@,
            Reason::IncorrectDataFormat => "incorrect data format"@,
        }
    }

    /// The numeric close code carried to the peer.
    pub fn code(&self) -> (c: u16)
        ensures
            c == self.code_spec(),
    {
        match self {
            Reason::HeartbeatTimeout => 4001,
            Reason::ResponseTimeout => 4002,
            Reason::RateLimit => 4003,
            Reason::TooManyConnections => 4004,
            Reason::UnexpectedPacket => 4005,
            Reason::InvalidPacket => 4006,
            Reason::IncorrectDataFormat => 4007,
        }
    }

    /// The human-readable description carried to the peer and the log.
    pub fn description(&self) -> (d: &'static str)
        ensures
            d@ == self.description_spec(),
    {
        match self {
            Reason::HeartbeatTimeout => "heartbeat timeout",
            Reason::ResponseTimeout => "response timeout",
            Reason::RateLimit => "rate limit",
            Reason::TooManyConnections => "too many connections",
            Reason::UnexpectedPacket => "unexpected packet",
            Reason::InvalidPacket => "invalid packet",
            Reason::IncorrectDataFormat => "incorrect data format",
        }
    }
}

} // verus!
