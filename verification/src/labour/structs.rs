//! The session's plain data: its protocol state, the worker category, what
//! is known of the connection, the transport events handed in, and the
//! effects handed back out.

use vstd::prelude::*;

use crate::guard::Sanction;

verus! {

/// The protocol state of one connection: handshaking until an identity is
/// shown, then working until disconnect.
#[derive(Debug, Clone, Copy, PartialEq, Eq, Hash, Structural)]
pub enum State {
    Handshaking,
    Working,
}

/// The role a worker declared in its identity.
#[derive(Debug, Clone, Copy, PartialEq, Eq, Hash, Structural)]
pub enum Category {
    Client,
    Server,
    Admin,
}

/// What is known of the peer: addresses as plain strings, as the transport
/// reported them.
#[derive(Debug, Clone, PartialEq, Eq, Hash)]
pub struct ConnectionInfo {
    pub peer_addr: String,
    pub scheme: String,
    pub host: String,
    pub real_remote_addr: Option<String>,
    pub remote_addr: Option<String>,
}

impl ConnectionInfo {
    /// Bundles what the transport reported about the peer.
    pub fn new(
        peer_addr: String,
        scheme: String,
        host: String,
        real_remote_addr: Option<String>,
        remote_addr: Option<String>,
    ) -> (r: ConnectionInfo)
        ensures
            r.peer_addr == peer_addr,
            r.scheme == scheme,
            r.host == host,
            r.real_remote_addr == real_remote_addr,
            r.remote_addr == remote_addr,
    {
        ConnectionInfo { peer_addr, scheme, host, real_remote_addr, remote_addr }
    }
}

/// One transport event, as the surrounding program hands it in: a binary
/// frame, the peer's close, or a frame kind this protocol does not speak.
#[derive(Debug, PartialEq, Eq)]
pub enum Frame {
    Binary(Vec<u8>),
    Close,
    Unsupported,
}

/// What processing one transport event asks the surrounding program to do,
/// in order: send the replies, reset the heartbeat timer if asked, stop the
/// response-deadline timer if asked, and close the connection if a sanction
/// or the peer's own close says so.
#[derive(Debug)]
pub struct Effects {
    pub replies: Vec<Vec<u8>>,
    pub sanction: Option<Sanction>,
    pub closed: bool,
    pub heartbeat_reset: bool,
    pub response_timer_stop: bool,
}

} // verus!
