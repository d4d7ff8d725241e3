//! The per-packet handlers: one per packet id, each enforcing its own state
//! precondition, as the session's dispatch calls them.

use vstd::prelude::*;

use crate::codec::lemma_varint_len_le_5;
use crate::guard::ban_until_of;
use crate::guard::Guard;
use crate::guard::Sanction;
use crate::labour::category_from_varint;
use crate::labour::handler_post;
use crate::labour::reject_spec;
use crate::labour::show_identity_spec;
use crate::labour::task_application_spec;
use crate::labour::Labour;
use crate::packet::lemma_strings_bytes_min;
use crate::packet::RateLimit;
use crate::packet::ShowIdentity;
use crate::packet::TaskApplication;
use crate::packet::TaskChange;
use crate::pool::assignment;
use crate::pool::lemma_assignment_fits;
use crate::pool::Pool;
use crate::labour::structs::Category;
use crate::labour::structs::State;
use crate::reason::kick;

verus! {

/// Handles the identity packet: valid only while handshaking with no
/// category set; it fixes the worker's category and token, moves the session
/// to working, and replies with the negotiated rate-limit parameters.
pub fn show_identity(labour: &mut Labour, guard: &mut Guard, data: &Vec<u8>, now: i64) -> (r: (
    Option<Vec<u8>>,
    Option<Sanction>,
))
    requires
        old(guard).wf(),
    ensures
        final(guard).wf(),
        final(guard).cfg == old(guard).cfg,
        final(labour).connection_info == old(labour).connection_info,
        final(labour).rate_limit == old(labour).rate_limit,
        handler_post(
            show_identity_spec(old(labour).model(), data@),
            final(labour).model(),
            old(guard).state(),
            final(guard).state(),
            old(guard).cfg.kick_count as int,
            ban_until_of(now, old(guard).cfg.ban_time),
            old(labour).connection_info.peer_addr@,
            r.0,
            r.1,
        ),
{
    proof {
        assert(data@.skip(0) =~= data@);
    }
    let handshaking = matches!(labour.state, State::Handshaking);
    if handshaking && labour.category.is_none() {
        match ShowIdentity::read_from_bytes(data, 0) {
            None => {
                let s = labour.kick(guard, kick::Reason::InvalidPacket, now);
                (None, Some(s))
            },
            Some((si, _n)) => match category_from_varint(si.category) {
                None => {
                    let s = labour.kick(guard, kick::Reason::InvalidPacket, now);
                    (None, Some(s))
                },
                Some(c) => {
                    labour.category = Some(c);
                    labour.token = si.token;
                    labour.state = State::Working;
                    let parameters = RateLimit {
                        interval: labour.rate_limit.interval,
                        max_burst: labour.rate_limit.max_burst,
                    };
                    proof {
                        lemma_varint_len_le_5(labour.rate_limit.interval);
                        lemma_varint_len_le_5(labour.rate_limit.max_burst);
                    }
                    let reply = parameters.to_packet().to_bytes();
                    (Some(reply), None)
                },
            },
        }
    } else {
        let s = labour.kick(guard, kick::Reason::UnexpectedPacket, now);
        (None, Some(s))
    }
}

/// Handles a task application: valid only while working as a client; it
/// draws an assignment from the pool and replies with the task change.
pub fn task_application(
    labour: &Labour,
    guard: &mut Guard,
    pool: &Pool,
    data: &Vec<u8>,
    now: i64,
) -> (r: (Option<Vec<u8>>, Option<Sanction>))
    requires
        old(guard).wf(),
        pool.wf(),
    ensures
        final(guard).wf(),
        final(guard).cfg == old(guard).cfg,
        handler_post(
            task_application_spec(labour.model(), pool.rooms@, data@),
            labour.model(),
            old(guard).state(),
            final(guard).state(),
            old(guard).cfg.kick_count as int,
            ban_until_of(now, old(guard).cfg.ban_time),
            labour.connection_info.peer_addr@,
            r.0,
            r.1,
        ),
{
    proof {
        assert(data@.skip(0) =~= data@);
    }
    let working = matches!(labour.state, State::Working);
    let is_client = matches!(labour.category, Some(Category::Client));
    if working && is_client {
        match TaskApplication::read_from_bytes(data, 0) {
            None => {
                let s = labour.kick(guard, kick::Reason::InvalidPacket, now);
                (None, Some(s))
            },
            Some((ta, _n)) => {
                proof {
                    lemma_assignment_fits(pool.rooms@, ta.room_count as int);
                    lemma_strings_bytes_min(assignment(pool.rooms@, ta.room_count as int));
                }
                let ids = pool.get(ta.room_count as usize);
                let count = ids.len() as u32;
                proof {
                    lemma_varint_len_le_5(count);
                }
                let tc = TaskChange { room_count: count, room_ids: ids };
                let reply = tc.to_packet().to_bytes();
                (Some(reply), None)
            },
        }
    } else {
        let s = labour.kick(guard, kick::Reason::UnexpectedPacket, now);
        (None, Some(s))
    }
}

/// The rate-limit packet is the server's to send, never the peer's.
pub fn rate_limit(labour: &Labour, guard: &mut Guard, _data: &Vec<u8>, now: i64) -> (r: (
    Option<Vec<u8>>,
    Option<Sanction>,
))
    requires
        old(guard).wf(),
    ensures
        final(guard).wf(),
        final(guard).cfg == old(guard).cfg,
        handler_post(
            reject_spec(labour.model()),
            labour.model(),
            old(guard).state(),
            final(guard).state(),
            old(guard).cfg.kick_count as int,
            ban_until_of(now, old(guard).cfg.ban_time),
            labour.connection_info.peer_addr@,
            r.0,
            r.1,
        ),
{
    let s = labour.kick(guard, kick::Reason::UnexpectedPacket, now);
    (None, Some(s))
}

/// The task-change packet is the server's to send, never the peer's.
pub fn task_change(labour: &Labour, guard: &mut Guard, _data: &Vec<u8>, now: i64) -> (r: (
    Option<Vec<u8>>,
    Option<Sanction>,
))
    requires
        old(guard).wf(),
    ensures
        final(guard).wf(),
        final(guard).cfg == old(guard).cfg,
        handler_post(
            reject_spec(labour.model()),
            labour.model(),
            old(guard).state(),
            final(guard).state(),
            old(guard).cfg.kick_count as int,
            ban_until_of(now, old(guard).cfg.ban_time),
            labour.connection_info.peer_addr@,
            r.0,
            r.1,
        ),
{
    let s = labour.kick(guard, kick::Reason::UnexpectedPacket, now);
    (None, Some(s))
}

/// A task confirmation is not awaited in any state this server reaches.
pub fn task_confirm(labour: &Labour, guard: &mut Guard, _data: &Vec<u8>, now: i64) -> (r: (
    Option<Vec<u8>>,
    Option<Sanction>,
))
    requires
        old(guard).wf(),
    ensures
        final(guard).wf(),
        final(guard).cfg == old(guard).cfg,
        handler_post(
            reject_spec(labour.model()),
            labour.model(),
            old(guard).state(),
            final(guard).state(),
            old(guard).cfg.kick_count as int,
            ban_until_of(now, old(guard).cfg.ban_time),
            labour.connection_info.peer_addr@,
            r.0,
            r.1,
        ),
{
    let s = labour.kick(guard, kick::Reason::UnexpectedPacket, now);
    (None, Some(s))
}

/// A data report is not awaited in any state this server reaches.
pub fn data_report(labour: &Labour, guard: &mut Guard, _data: &Vec<u8>, now: i64) -> (r: (
    Option<Vec<u8>>,
    Option<Sanction>,
))
    requires
        old(guard).wf(),
    ensures
        final(guard).wf(),
        final(guard).cfg == old(guard).cfg,
        handler_post(
            reject_spec(labour.model()),
            labour.model(),
            old(guard).state(),
            final(guard).state(),
            old(guard).cfg.kick_count as int,
            ban_until_of(now, old(guard).cfg.ban_time),
            labour.connection_info.peer_addr@,
            r.0,
            r.1,
        ),
{
    let s = labour.kick(guard, kick::Reason::UnexpectedPacket, now);
    (None, Some(s))
}

/// A notification is the server's to send, never the peer's.
pub fn notification(labour: &Labour, guard: &mut Guard, _data: &Vec<u8>, now: i64) -> (r: (
    Option<Vec<u8>>,
    Option<Sanction>,
))
    requires
        old(guard).wf(),
    ensures
        final(guard).wf(),
        final(guard).cfg == old(guard).cfg,
        handler_post(
            reject_spec(labour.model()),
            labour.model(),
            old(guard).state(),
            final(guard).state(),
            old(guard).cfg.kick_count as int,
            ban_until_of(now, old(guard).cfg.ban_time),
            labour.connection_info.peer_addr@,
            r.0,
            r.1,
        ),
{
    let s = labour.kick(guard, kick::Reason::UnexpectedPacket, now);
    (None, Some(s))
}

} // verus!
