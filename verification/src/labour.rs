//! The per-connection session ("labour"): one instance per accepted
//! connection, driving rate limiting, frame decoding, state validation,
//! dispatch, and the guard and pool consultations that follow. The transport
//! and the timers live in the surrounding program, which hands in one event
//! at a time and performs the effects handed back.

use vstd::prelude::*;

pub mod handle;
pub mod structs;

use crate::codec::varint_bytes;
use crate::guard::ban_until_of;
use crate::guard::kick_escalates;
use crate::guard::kick_spec;
use crate::guard::Guard;
use crate::guard::GuardState;
use crate::guard::Sanction;
use crate::packet::lemma_packet_read_bound;
use crate::packet::packet_read;
use crate::packet::show_identity_read;
use crate::packet::strings_bytes;
use crate::packet::task_application_read;
use crate::packet::Packet;
use crate::pool::Pool;
use crate::pool::assignment;
use crate::limiter::quota_allow_burst;
use crate::limiter::quota_with_period_ms;
use crate::limiter::Limiter;
use crate::packet::constants;
use crate::pool::room::Room;
use crate::reason::ban;
use crate::reason::kick;
use crate::settings::RateLimit;
use crate::settings::Settings;
use structs::Category;
use structs::ConnectionInfo;
use structs::Effects;
use structs::Frame;
use structs::State;

verus! {

/// The session as the contracts speak of it: everything the state machine
/// reads and writes, in mathematical form.
pub ghost struct LabourView {
    pub category: Option<Category>,
    pub token: Seq<char>,
    pub state: State,
    pub interval: u32,
    pub max_burst: u32,
    pub response_ids: Seq<u32>,
}

/// What a worker declared itself to be, by the wire value of the identity
/// packet's category field.
pub open spec fn category_of(v: int) -> Option<Category> {
    if v == constants::CATEGORY_CLIENT {
        Some(Category::Client)
    } else if v == constants::CATEGORY_SERVER {
        Some(Category::Server)
    } else if v == constants::CATEGORY_ADMIN {
        Some(Category::Admin)
    } else {
        None
    }
}

/// Maps a wire category value to the worker role it names, if any.
pub fn category_from_varint(v: u32) -> (r: Option<Category>)
    ensures
        r == category_of(v as int),
{
    if v == constants::CATEGORY_CLIENT {
        Some(Category::Client)
    } else if v == constants::CATEGORY_SERVER {
        Some(Category::Server)
    } else if v == constants::CATEGORY_ADMIN {
        Some(Category::Admin)
    } else {
        None
    }
}

/// The pending-response set with the first occurrence of `v` taken out.
pub open spec fn remove_first(s: Seq<u32>, v: u32) -> Seq<u32>
    decreases s.len(),
{
    if s.len() == 0 {
        s
    } else if s[0] == v {
        s.skip(1)
    } else {
        seq![s[0]] + remove_first(s.skip(1), v)
    }
}

/// What handling one packet does, before the guard's escalation decision:
/// the session afterwards, at most one reply, and the kick asked for, if any.
pub ghost struct PacketOutcome {
    pub labour: LabourView,
    pub reply: Option<Seq<u8>>,
    pub kick: Option<kick::Reason>,
}

/// The frame answering an identity: the negotiated rate-limit parameters.
pub open spec fn rate_limit_reply(interval: u32, max_burst: u32) -> Seq<u8> {
    let payload = varint_bytes(interval) + varint_bytes(max_burst);
    varint_bytes(payload.len() as u32) + varint_bytes(constants::RATE_LIMIT) + payload
}

/// The frame answering a task application: the assignment drawn from the
/// pool, as a count-prefixed list of room ids.
pub open spec fn task_change_reply(rooms: Seq<Room>, count: int) -> Seq<u8> {
    let ids = assignment(rooms, count);
    let payload = varint_bytes(ids.len() as u32) + strings_bytes(ids);
    varint_bytes(payload.len() as u32) + varint_bytes(constants::TASK_CHANGE) + payload
}

/// What the identity packet does: valid only while handshaking with no
/// category set, it fixes category and token, moves the session to working,
/// and is answered with the rate-limit parameters; a payload that does not
/// parse, or an unknown category, is an invalid packet; out of place, it is
/// an unexpected one.
pub open spec fn show_identity_spec(l: LabourView, payload: Seq<u8>) -> PacketOutcome {
    if l.state == State::Handshaking && l.category is None {
        match show_identity_read(payload) {
            None => PacketOutcome { labour: l, reply: None, kick: Some(kick::Reason::InvalidPacket) },
            Some(((cat, token), n)) => match category_of(cat) {
                None => PacketOutcome {
                    labour: l,
                    reply: None,
                    kick: Some(kick::Reason::InvalidPacket),
                },
                Some(c) => PacketOutcome {
                    labour: LabourView { category: Some(c), token, state: State::Working, ..l },
                    reply: Some(rate_limit_reply(l.interval, l.max_burst)),
                    kick: None,
                },
            },
        }
    } else {
        PacketOutcome { labour: l, reply: None, kick: Some(kick::Reason::UnexpectedPacket) }
    }
}

/// What a task application does: valid only while working as a client, it
/// is answered with an assignment from the pool; a payload that does not
/// parse is an invalid packet; out of place, it is an unexpected one.
pub open spec fn task_application_spec(l: LabourView, rooms: Seq<Room>, payload: Seq<u8>) -> PacketOutcome {
    if l.state == State::Working && l.category == Some(Category::Client) {
        match task_application_read(payload) {
            None => PacketOutcome { labour: l, reply: None, kick: Some(kick::Reason::InvalidPacket) },
            Some((count, n)) => PacketOutcome {
                labour: l,
                reply: Some(task_change_reply(rooms, count)),
                kick: None,
            },
        }
    } else {
        PacketOutcome { labour: l, reply: None, kick: Some(kick::Reason::UnexpectedPacket) }
    }
}

/// What every other packet does, wherever it arrives: it is unexpected.
pub open spec fn reject_spec(l: LabourView) -> PacketOutcome {
    PacketOutcome { labour: l, reply: None, kick: Some(kick::Reason::UnexpectedPacket) }
}

/// The dispatch table: the identity and task-application packets have
/// handlers of their own; every other id, known or not, is rejected.
pub open spec fn dispatch_spec(l: LabourView, rooms: Seq<Room>, id: int, payload: Seq<u8>) -> PacketOutcome {
    if id == constants::SHOW_IDENTITY {
        show_identity_spec(l, payload)
    } else if id == constants::TASK_APPLICATION {
        task_application_spec(l, rooms, payload)
    } else {
        reject_spec(l)
    }
}

/// How a handler's exec result relates to its outcome `o`: the session
/// stands at `o.labour`; a kick books `kick_spec` with the guard and hands
/// back the sanction the guard chose; otherwise the guard is untouched and
/// the reply bytes are exactly `o.reply`.
pub open spec fn handler_post(
    o: PacketOutcome,
    l_new: LabourView,
    g_old: GuardState,
    g_new: GuardState,
    k: int,
    until: i64,
    addr: Seq<char>,
    reply: Option<Vec<u8>>,
    sanction: Option<Sanction>,
) -> bool {
    &&& l_new == o.labour
    &&& (match o.kick {
        None => g_new == g_old && sanction is None,
        Some(reason) => {
            &&& g_new == kick_spec(g_old, addr, o.labour.token, k, until)
            &&& sanction == Some(
                if kick_escalates(g_old, addr, o.labour.token, k) {
                    Sanction::Banned(ban::Reason::TooManyKicks)
                } else {
                    Sanction::Kicked(reason)
                },
            )
        },
    })
    &&& (match o.reply {
        None => reply is None,
        Some(rb) => match reply {
            Some(v) => v@ == rb,
            None => false,
        },
    })
}

/// One connection's session: identity, protocol state, rate limiter, and the
/// packet ids the peer still owes a reply for.
pub struct Labour {
    pub connection_info: ConnectionInfo,
    pub category: Option<Category>,
    pub token: String,
    pub state: State,
    pub rate_limit: RateLimit,
    pub rate_limiter: Limiter,
    pub response_ids: Vec<u32>,
}

impl Labour {
    /// The session in mathematical form.
    pub open spec fn model(&self) -> LabourView {
        LabourView {
            category: self.category,
            token: self.token@,
            state: self.state,
            interval: self.rate_limit.interval,
            max_burst: self.rate_limit.max_burst,
            response_ids: self.response_ids@,
        }
    }

    /// A fresh session for an accepted connection: handshaking, anonymous,
    /// with a token bucket of the configured period and burst. A zero period
    /// or burst cannot make a bucket.
    pub fn new(connection_info: ConnectionInfo, settings: &Settings) -> (l: Labour)
        requires
            settings.rate_limit.interval >= 1,
            settings.rate_limit.max_burst >= 1,
        ensures
            l.connection_info == connection_info,
            l.rate_limit == settings.rate_limit,
            l.model() == (LabourView {
                category: None,
                token: Seq::empty(),
                state: State::Handshaking,
                interval: settings.rate_limit.interval,
                max_burst: settings.rate_limit.max_burst,
                response_ids: Seq::empty(),
            }),
    {
        let quota = match quota_with_period_ms(settings.rate_limit.interval as u64) {
            Some(q) => q,
            None => {
                proof {
                    assert(false);
                }
                unreached()
            },
        };
        let quota = quota_allow_burst(quota, settings.rate_limit.max_burst);
        Labour {
            connection_info,
            category: None,
            token: String::new(),
            state: State::Handshaking,
            rate_limit: settings.rate_limit,
            rate_limiter: Limiter::direct(quota),
            response_ids: Vec::new(),
        }
    }

    /// On connect: the identity packet becomes an expected response. The
    /// surrounding program starts both timers alongside.
    pub fn started(&mut self)
        ensures
            final(self).model() == (LabourView {
                response_ids: old(self).model().response_ids.push(constants::SHOW_IDENTITY),
                ..old(self).model()
            }),
            final(self).connection_info == old(self).connection_info,
            final(self).rate_limit == old(self).rate_limit,
    {
        self.response_ids.push(constants::SHOW_IDENTITY);
    }

    /// Books a kick of this connection with the guard; the returned sanction
    /// says whether it escalated to a ban. The surrounding program stops the
    /// timers and closes the connection with the sanction's code.
    pub fn kick(&self, guard: &mut Guard, reason: kick::Reason, now: i64) -> (r: Sanction)
        requires
            old(guard).wf(),
        ensures
            final(guard).wf(),
            final(guard).cfg == old(guard).cfg,
            final(guard).state() == kick_spec(
                old(guard).state(),
                self.connection_info.peer_addr@,
                self.token@,
                old(guard).cfg.kick_count as int,
                ban_until_of(now, old(guard).cfg.ban_time),
            ),
            r == (if kick_escalates(
                old(guard).state(),
                self.connection_info.peer_addr@,
                self.token@,
                old(guard).cfg.kick_count as int,
            ) {
                Sanction::Banned(ban::Reason::TooManyKicks)
            } else {
                Sanction::Kicked(reason)
            }),
    {
        guard.kick(self.connection_info.peer_addr.as_str(), self.token.as_str(), reason, now)
    }

    /// Books a ban of this connection with the guard; the first ban wins.
    /// The surrounding program stops the timers and closes the connection
    /// with the reason's code.
    pub fn ban(&self, guard: &mut Guard, reason: ban::Reason, now: i64) -> (r: Sanction)
        requires
            old(guard).wf(),
        ensures
            final(guard).wf(),
            final(guard).cfg == old(guard).cfg,
            final(guard).state() == crate::guard::ban_spec(
                old(guard).state(),
                self.connection_info.peer_addr@,
                self.token@,
                ban_until_of(now, old(guard).cfg.ban_time),
            ),
            r == Sanction::Banned(reason),
    {
        guard.ban(self.connection_info.peer_addr.as_str(), self.token.as_str(), now);
        Sanction::Banned(reason)
    }

    /// The peer did not answer an expected packet in time: kick it.
    pub fn on_response_timeout(&self, guard: &mut Guard, now: i64) -> (r: Sanction)
        requires
            old(guard).wf(),
        ensures
            final(guard).wf(),
            final(guard).cfg == old(guard).cfg,
            final(guard).state() == kick_spec(
                old(guard).state(),
                self.connection_info.peer_addr@,
                self.token@,
                old(guard).cfg.kick_count as int,
                ban_until_of(now, old(guard).cfg.ban_time),
            ),
            r == (if kick_escalates(
                old(guard).state(),
                self.connection_info.peer_addr@,
                self.token@,
                old(guard).cfg.kick_count as int,
            ) {
                Sanction::Banned(ban::Reason::TooManyKicks)
            } else {
                Sanction::Kicked(kick::Reason::ResponseTimeout)
            }),
    {
        self.kick(guard, kick::Reason::ResponseTimeout, now)
    }

    /// The peer sent nothing at all for too long: kick it.
    pub fn on_heartbeat_timeout(&self, guard: &mut Guard, now: i64) -> (r: Sanction)
        requires
            old(guard).wf(),
        ensures
            final(guard).wf(),
            final(guard).cfg == old(guard).cfg,
            final(guard).state() == kick_spec(
                old(guard).state(),
                self.connection_info.peer_addr@,
                self.token@,
                old(guard).cfg.kick_count as int,
                ban_until_of(now, old(guard).cfg.ban_time),
            ),
            r == (if kick_escalates(
                old(guard).state(),
                self.connection_info.peer_addr@,
                self.token@,
                old(guard).cfg.kick_count as int,
            ) {
                Sanction::Banned(ban::Reason::TooManyKicks)
            } else {
                Sanction::Kicked(kick::Reason::HeartbeatTimeout)
            }),
    {
        self.kick(guard, kick::Reason::HeartbeatTimeout, now)
    }

    /// How long the session waits for an expected response, in milliseconds:
    /// twice the rate-limit interval.
    pub fn response_timeout_ms(&self) -> (r: u64)
        ensures
            r == 2 * self.rate_limit.interval as u64,
    {
        2 * (self.rate_limit.interval as u64)
    }

    /// How long the session tolerates silence, in milliseconds: one full
    /// burst's worth of intervals.
    pub fn heartbeat_timeout_ms(&self) -> (r: u64)
        ensures
            r == self.rate_limit.interval as u64 * self.rate_limit.max_burst as u64,
    {
        proof {
            assert((self.rate_limit.interval as int) * (self.rate_limit.max_burst as int)
                <= 0xFFFF_FFFFu64 * 0xFFFF_FFFFu64) by (nonlinear_arith)
                requires
                    self.rate_limit.interval <= 0xFFFF_FFFFu64,
                    self.rate_limit.max_burst <= 0xFFFF_FFFFu64,
            ;
        }
        (self.rate_limit.interval as u64) * (self.rate_limit.max_burst as u64)
    }
}


/// What processing one whole binary batch does: the session and guard
/// afterwards, the replies in order, the sanction that stopped it, if any,
/// and whether an expected response arrived.
pub ghost struct BatchOutcome {
    pub labour: LabourView,
    pub guard: GuardState,
    pub replies: Seq<Seq<u8>>,
    pub sanction: Option<Sanction>,
    pub response_timer_stop: bool,
}

/// Processing a batch, frame by frame: a frame that does not decode is an
/// invalid packet and a kick; a decoded frame first settles the
/// expected-response bookkeeping, then goes through the dispatch table; the
/// batch stops at the first sanction, and nothing after it is processed.
pub open spec fn batch_spec(
    l: LabourView,
    g: GuardState,
    addr: Seq<char>,
    k: int,
    until: i64,
    rooms: Seq<Room>,
    bytes: Seq<u8>,
) -> BatchOutcome
    decreases bytes.len(),
    via batch_spec_decreases
{
    if bytes.len() == 0 {
        BatchOutcome {
            labour: l,
            guard: g,
            replies: Seq::empty(),
            sanction: None,
            response_timer_stop: false,
        }
    } else {
        match packet_read(bytes) {
            None => BatchOutcome {
                labour: l,
                guard: kick_spec(g, addr, l.token, k, until),
                replies: Seq::empty(),
                sanction: Some(
                    if kick_escalates(g, addr, l.token, k) {
                        Sanction::Banned(ban::Reason::TooManyKicks)
                    } else {
                        Sanction::Kicked(kick::Reason::InvalidPacket)
                    },
                ),
                response_timer_stop: false,
            },
            Some(((length, id, payload), n)) => {
                let expected = l.response_ids.contains(id as u32);
                let l1 = LabourView {
                    response_ids: if expected {
                        remove_first(l.response_ids, id as u32)
                    } else {
                        l.response_ids
                    },
                    ..l
                };
                let o = dispatch_spec(l1, rooms, id, payload);
                match o.kick {
                    Some(reason) => BatchOutcome {
                        labour: o.labour,
                        guard: kick_spec(g, addr, o.labour.token, k, until),
                        replies: Seq::empty(),
                        sanction: Some(
                            if kick_escalates(g, addr, o.labour.token, k) {
                                Sanction::Banned(ban::Reason::TooManyKicks)
                            } else {
                                Sanction::Kicked(reason)
                            },
                        ),
                        response_timer_stop: expected,
                    },
                    None => {
                        let rest = batch_spec(o.labour, g, addr, k, until, rooms, bytes.skip(n as int));
                        BatchOutcome {
                            labour: rest.labour,
                            guard: rest.guard,
                            replies: (match o.reply {
                                Some(rb) => seq![rb],
                                None => Seq::empty(),
                            }) + rest.replies,
                            sanction: rest.sanction,
                            response_timer_stop: expected || rest.response_timer_stop,
                        }
                    },
                }
            },
        }
    }
}

#[via_fn]
proof fn batch_spec_decreases(
    l: LabourView,
    g: GuardState,
    addr: Seq<char>,
    k: int,
    until: i64,
    rooms: Seq<Room>,
    bytes: Seq<u8>,
) {
    lemma_packet_read_bound(bytes);
}

/// What processing one transport event does: a rate-limit rejection kicks
/// before anything is read; a binary frame resets the heartbeat deadline and
/// runs the batch; the peer's close ends the session without the guard; any
/// other frame kind is an incorrect-data-format kick.
pub open spec fn handle_spec(
    l: LabourView,
    g: GuardState,
    addr: Seq<char>,
    k: int,
    until: i64,
    rooms: Seq<Room>,
    frame: Frame,
    rate_ok: bool,
) -> HandleOutcome {
    if !rate_ok {
        HandleOutcome {
            labour: l,
            guard: kick_spec(g, addr, l.token, k, until),
            replies: Seq::empty(),
            sanction: Some(
                if kick_escalates(g, addr, l.token, k) {
                    Sanction::Banned(ban::Reason::TooManyKicks)
                } else {
                    Sanction::Kicked(kick::Reason::RateLimit)
                },
            ),
            closed: false,
            heartbeat_reset: false,
            response_timer_stop: false,
        }
    } else {
        match frame {
            Frame::Binary(bin) => {
                let b = batch_spec(l, g, addr, k, until, rooms, bin@);
                HandleOutcome {
                    labour: b.labour,
                    guard: b.guard,
                    replies: b.replies,
                    sanction: b.sanction,
                    closed: false,
                    heartbeat_reset: true,
                    response_timer_stop: b.response_timer_stop,
                }
            },
            Frame::Close => HandleOutcome {
                labour: l,
                guard: g,
                replies: Seq::empty(),
                sanction: None,
                closed: true,
                heartbeat_reset: false,
                response_timer_stop: false,
            },
            Frame::Unsupported => HandleOutcome {
                labour: l,
                guard: kick_spec(g, addr, l.token, k, until),
                replies: Seq::empty(),
                sanction: Some(
                    if kick_escalates(g, addr, l.token, k) {
                        Sanction::Banned(ban::Reason::TooManyKicks)
                    } else {
                        Sanction::Kicked(kick::Reason::IncorrectDataFormat)
                    },
                ),
                closed: false,
                heartbeat_reset: false,
                response_timer_stop: false,
            },
        }
    }
}

/// What a whole transport event leaves behind, effects included.
pub ghost struct HandleOutcome {
    pub labour: LabourView,
    pub guard: GuardState,
    pub replies: Seq<Seq<u8>>,
    pub sanction: Option<Sanction>,
    pub closed: bool,
    pub heartbeat_reset: bool,
    pub response_timer_stop: bool,
}

/// The session, the guard and the returned effects all stand where the
/// outcome says.
pub open spec fn handle_outcome_holds(
    o: HandleOutcome,
    l_new: LabourView,
    g_new: GuardState,
    e: Effects,
) -> bool {
    &&& l_new == o.labour
    &&& g_new == o.guard
    &&& e.replies.deep_view() == o.replies
    &&& e.sanction == o.sanction
    &&& e.closed == o.closed
    &&& e.heartbeat_reset == o.heartbeat_reset
    &&& e.response_timer_stop == o.response_timer_stop
}

/// State gating: a task application while still handshaking is rejected as
/// an unexpected packet, whatever its payload holds, and the session is left
/// as it was.
pub proof fn lemma_state_gating(l: LabourView, rooms: Seq<Room>, payload: Seq<u8>)
    requires
        l.state == State::Handshaking,
    ensures
        dispatch_spec(l, rooms, constants::TASK_APPLICATION as int, payload) == (PacketOutcome {
            labour: l,
            reply: None,
            kick: Some(kick::Reason::UnexpectedPacket),
        }),
{
}

/// Whether the pending-response set holds `id`.
fn contains_id(ids: &Vec<u32>, id: u32) -> (r: bool)
    ensures
        r == ids@.contains(id),
{
    let mut i: usize = 0;
    while i < ids.len()
        invariant
            i <= ids@.len(),
            forall|j: int| 0 <= j < i ==> ids@[j] != id,
        decreases ids@.len() - i,
    {
        if ids[i] == id {
            assert(ids@[i as int] == id);
            return true;
        }
        i = i + 1;
    }
    proof {
        if ids@.contains(id) {
            let j = choose|j: int| 0 <= j < ids@.len() && ids@[j] == id;
            assert(ids@[j] != id);
        }
    }
    false
}

proof fn lemma_remove_first_absent(s: Seq<u32>, id: u32)
    requires
        forall|j: int| 0 <= j < s.len() ==> s[j] != id,
    ensures
        remove_first(s, id) == s,
    decreases s.len(),
{
    if s.len() > 0 {
        assert forall|j: int| 0 <= j < s.skip(1).len() implies s.skip(1)[j] != id by {
            assert(s.skip(1)[j] == s[j + 1]);
        }
        lemma_remove_first_absent(s.skip(1), id);
        assert(seq![s[0]] + s.skip(1) =~= s);
    }
}

proof fn lemma_remove_first_at(s: Seq<u32>, id: u32, p: int)
    requires
        0 <= p < s.len(),
        forall|j: int| 0 <= j < p ==> s[j] != id,
        s[p] == id,
    ensures
        remove_first(s, id) == s.remove(p),
    decreases p,
{
    if p == 0 {
        assert(s.remove(0) =~= s.skip(1));
    } else {
        assert forall|j: int| 0 <= j < p - 1 implies s.skip(1)[j] != id by {
            assert(s.skip(1)[j] == s[j + 1]);
        }
        assert(s.skip(1)[p - 1] == s[p]);
        lemma_remove_first_at(s.skip(1), id, p - 1);
        assert(remove_first(s, id) == seq![s[0]] + remove_first(s.skip(1), id));
        assert(seq![s[0]] + s.skip(1).remove(p - 1) =~= s.remove(p));
    }
}

/// Takes the first occurrence of `id` out of the pending-response set.
fn remove_first_exec(ids: &mut Vec<u32>, id: u32)
    ensures
        final(ids)@ == remove_first(old(ids)@, id),
{
    let mut i: usize = 0;
    while i < ids.len()
        invariant
            i <= ids@.len(),
            ids@ == old(ids)@,
            forall|j: int| 0 <= j < i ==> ids@[j] != id,
        decreases ids@.len() - i,
    {
        if ids[i] == id {
            proof {
                lemma_remove_first_at(ids@, id, i as int);
            }
            ids.remove(i);
            return ;
        }
        i = i + 1;
    }
    proof {
        lemma_remove_first_absent(ids@, id);
    }
}

impl Labour {
    /// Resolves one decoded frame through the dispatch table.
    fn dispatch(&mut self, guard: &mut Guard, pool: &Pool, pkt: &Packet, now: i64) -> (r: (
        Option<Vec<u8>>,
        Option<Sanction>,
    ))
        requires
            old(guard).wf(),
            pool.wf(),
        ensures
            final(guard).wf(),
            final(guard).cfg == old(guard).cfg,
            final(self).connection_info == old(self).connection_info,
            final(self).rate_limit == old(self).rate_limit,
            handler_post(
                dispatch_spec(old(self).model(), pool.rooms@, pkt.id as int, pkt.data@),
                final(self).model(),
                old(guard).state(),
                final(guard).state(),
                old(guard).cfg.kick_count as int,
                ban_until_of(now, old(guard).cfg.ban_time),
                old(self).connection_info.peer_addr@,
                r.0,
                r.1,
            ),
    {
        if pkt.id == constants::SHOW_IDENTITY {
            handle::show_identity(self, guard, &pkt.data, now)
        } else if pkt.id == constants::TASK_APPLICATION {
            handle::task_application(self, guard, pool, &pkt.data, now)
        } else if pkt.id == constants::RATE_LIMIT {
            handle::rate_limit(self, guard, &pkt.data, now)
        } else if pkt.id == constants::TASK_CHANGE {
            handle::task_change(self, guard, &pkt.data, now)
        } else if pkt.id == constants::TASK_CONFIRM {
            handle::task_confirm(self, guard, &pkt.data, now)
        } else if pkt.id == constants::DATA_REPORT {
            handle::data_report(self, guard, &pkt.data, now)
        } else if pkt.id == constants::NOTIFICATION {
            handle::notification(self, guard, &pkt.data, now)
        } else {
            let s = self.kick(guard, kick::Reason::UnexpectedPacket, now);
            (None, Some(s))
        }
    }

    /// Splits a binary batch into frames and processes them in order,
    /// stopping at the first sanction.
    fn handle_batch(&mut self, guard: &mut Guard, pool: &Pool, bytes: &Vec<u8>, now: i64) -> (r: (
        Vec<Vec<u8>>,
        Option<Sanction>,
        bool,
    ))
        requires
            old(guard).wf(),
            pool.wf(),
        ensures
            final(guard).wf(),
            final(guard).cfg == old(guard).cfg,
            final(self).connection_info == old(self).connection_info,
            final(self).rate_limit == old(self).rate_limit,
            ({
                let b = batch_spec(
                    old(self).model(),
                    old(guard).state(),
                    old(self).connection_info.peer_addr@,
                    old(guard).cfg.kick_count as int,
                    ban_until_of(now, old(guard).cfg.ban_time),
                    pool.rooms@,
                    bytes@,
                );
                &&& final(self).model() == b.labour
                &&& final(guard).state() == b.guard
                &&& r.0.deep_view() == b.replies
                &&& r.1 == b.sanction
                &&& r.2 == b.response_timer_stop
            }),
    {
        let mut pos: usize = 0;
        let mut replies: Vec<Vec<u8>> = Vec::new();
        let mut rts = false;
        proof {
            assert(bytes@.skip(0) =~= bytes@);
            assert(replies.deep_view() =~= Seq::<Seq<u8>>::empty());
        }
        while pos < bytes.len()
            invariant
                pos <= bytes@.len(),
                guard.wf(),
                pool.wf(),
                guard.cfg == old(guard).cfg,
                self.connection_info == old(self).connection_info,
                self.rate_limit == old(self).rate_limit,
                ({
                    let b = batch_spec(
                        old(self).model(),
                        old(guard).state(),
                        old(self).connection_info.peer_addr@,
                        old(guard).cfg.kick_count as int,
                        ban_until_of(now, old(guard).cfg.ban_time),
                        pool.rooms@,
                        bytes@,
                    );
                    let rest = batch_spec(
                        self.model(),
                        guard.state(),
                        old(self).connection_info.peer_addr@,
                        old(guard).cfg.kick_count as int,
                        ban_until_of(now, old(guard).cfg.ban_time),
                        pool.rooms@,
                        bytes@.skip(pos as int),
                    );
                    &&& b.labour == rest.labour
                    &&& b.guard == rest.guard
                    &&& b.replies == replies.deep_view() + rest.replies
                    &&& b.sanction == rest.sanction
                    &&& b.response_timer_stop == (rts || rest.response_timer_stop)
                }),
            decreases bytes@.len() - pos,
        {
            let ghost remaining = bytes@.skip(pos as int);
            let ghost l_cur = self.model();
            let ghost g_cur = guard.state();
            proof {
                lemma_packet_read_bound(remaining);
            }
            match Packet::read_from_bytes(bytes, pos) {
                None => {
                    let s = self.kick(guard, kick::Reason::InvalidPacket, now);
                    proof {
                        assert(replies.deep_view() + Seq::<Seq<u8>>::empty() =~= replies.deep_view());
                    }
                    return (replies, Some(s), rts);
                },
                Some((pkt, n)) => {
                    proof {
                        assert(0 <= (pkt.id as int) < 0x1_0000_0000);
                        assert(((pkt.id as int) as u32) == pkt.id);
                    }
                    let expected = contains_id(&self.response_ids, pkt.id);
                    if expected {
                        remove_first_exec(&mut self.response_ids, pkt.id);
                        rts = true;
                    }
                    let ghost l1 = self.model();
                    let (reply, sanction) = self.dispatch(guard, pool, &pkt, now);
                    match sanction {
                        Some(s) => {
                            proof {
                                assert(replies.deep_view() + Seq::<Seq<u8>>::empty()
                                    =~= replies.deep_view());
                            }
                            return (replies, Some(s), rts);
                        },
                        None => {
                            let ghost replies_before = replies.deep_view();
                            pos = pos + n;
                            proof {
                                assert(remaining.skip(n as int) =~= bytes@.skip(pos as int));
                            }
                            let ghost rest_next = batch_spec(
                                self.model(),
                                guard.state(),
                                old(self).connection_info.peer_addr@,
                                old(guard).cfg.kick_count as int,
                                ban_until_of(now, old(guard).cfg.ban_time),
                                pool.rooms@,
                                bytes@.skip(pos as int),
                            );
                            match reply {
                                Some(rb) => {
                                    let ghost rbv = rb@;
                                    replies.push(rb);
                                    proof {
                                        assert(replies.deep_view() =~~= replies_before + seq![rbv]);
                                        assert((replies_before + seq![rbv]) + rest_next.replies
                                            =~= replies_before + (seq![rbv] + rest_next.replies));
                                    }
                                },
                                None => {
                                    proof {
                                        assert(replies_before + (Seq::<Seq<u8>>::empty()
                                            + rest_next.replies) =~= replies_before
                                            + rest_next.replies);
                                    }
                                },
                            }
                        },
                    }
                },
            }
        }
        proof {
            assert(bytes@.skip(pos as int) =~= Seq::<u8>::empty());
            assert(replies.deep_view() + Seq::<Seq<u8>>::empty() =~= replies.deep_view());
        }
        (replies, None, rts)
    }

    /// Processes one transport event: rate-limit admission first, then the
    /// frame itself. The returned effects carry the replies to send, the
    /// timer adjustments, and how the connection ends, if it does. What the
    /// rate limiter answers depends on the clock, so the outcome is one of
    /// the two the specification allows for this event.
    pub fn handle(&mut self, guard: &mut Guard, pool: &Pool, frame: Frame, now: i64) -> (e:
        Effects)
        requires
            old(guard).wf(),
            pool.wf(),
        ensures
            final(guard).wf(),
            final(guard).cfg == old(guard).cfg,
            final(self).connection_info == old(self).connection_info,
            final(self).rate_limit == old(self).rate_limit,
            ({
                let o1 = handle_spec(
                    old(self).model(),
                    old(guard).state(),
                    old(self).connection_info.peer_addr@,
                    old(guard).cfg.kick_count as int,
                    ban_until_of(now, old(guard).cfg.ban_time),
                    pool.rooms@,
                    frame,
                    true,
                );
                let o0 = handle_spec(
                    old(self).model(),
                    old(guard).state(),
                    old(self).connection_info.peer_addr@,
                    old(guard).cfg.kick_count as int,
                    ban_until_of(now, old(guard).cfg.ban_time),
                    pool.rooms@,
                    frame,
                    false,
                );
                ||| handle_outcome_holds(o1, final(self).model(), final(guard).state(), e)
                ||| handle_outcome_holds(o0, final(self).model(), final(guard).state(), e)
            }),
    {
        let rate_ok = self.rate_limiter.check();
        if !rate_ok {
            let s = self.kick(guard, kick::Reason::RateLimit, now);
            let replies: Vec<Vec<u8>> = Vec::new();
            proof {
                assert(replies.deep_view() =~= Seq::<Seq<u8>>::empty());
            }
            return Effects {
                replies,
                sanction: Some(s),
                closed: false,
                heartbeat_reset: false,
                response_timer_stop: false,
            };
        }
        match frame {
            Frame::Binary(bin) => {
                let (replies, sanction, rts) = self.handle_batch(guard, pool, &bin, now);
                Effects {
                    replies,
                    sanction,
                    closed: false,
                    heartbeat_reset: true,
                    response_timer_stop: rts,
                }
            },
            Frame::Close => {
                let replies: Vec<Vec<u8>> = Vec::new();
                proof {
                    assert(replies.deep_view() =~= Seq::<Seq<u8>>::empty());
                }
                Effects {
                    replies,
                    sanction: None,
                    closed: true,
                    heartbeat_reset: false,
                    response_timer_stop: false,
                }
            },
            Frame::Unsupported => {
                let s = self.kick(guard, kick::Reason::IncorrectDataFormat, now);
                let replies: Vec<Vec<u8>> = Vec::new();
                proof {
                    assert(replies.deep_view() =~= Seq::<Seq<u8>>::empty());
                }
                Effects {
                    replies,
                    sanction: Some(s),
                    closed: false,
                    heartbeat_reset: false,
                    response_timer_stop: false,
                }
            },
        }
    }
}

} // verus!
