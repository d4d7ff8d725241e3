use synmon::config::guard::Guard as GuardConfig;
use synmon::guard::Guard;
use synmon::guard::Sanction;
use synmon::labour::structs::Category;
use synmon::labour::structs::ConnectionInfo;
use synmon::labour::structs::Frame;
use synmon::labour::structs::State;
use synmon::labour::Labour;
use synmon::packet::constants;
use synmon::packet::Packet;
use synmon::packet::RateLimit;
use synmon::packet::ShowIdentity;
use synmon::packet::TaskApplication;
use synmon::packet::TaskChange;
use synmon::pool::room::Room;
use synmon::pool::Pool;
use synmon::reason::kick;
use synmon::config::Config;
use synmon::settings::Overrides;
use synmon::settings::Settings;

#[test]
fn labour_test() {}

fn conn_info() -> ConnectionInfo {
    ConnectionInfo::new(
        String::from("127.0.0.1:4444"),
        String::from("ws"),
        String::from("localhost"),
        None,
        None,
    )
}

fn fresh() -> (Labour, Guard, Pool) {
    let settings = Settings::default();
    let mut labour = Labour::new(conn_info(), &settings);
    labour.started();
    let guard = Guard::new(GuardConfig { kick_count: 10, ban_time: 24 });
    let mut pool = Pool::new();
    assert!(pool.add_room(Room { id: String::from("A"), weight: 5 }));
    assert!(pool.add_room(Room { id: String::from("B"), weight: 5 }));
    assert!(pool.add_room(Room { id: String::from("C"), weight: 1 }));
    (labour, guard, pool)
}

fn identity_frame(category: u32, token: &str) -> Frame {
    let si = ShowIdentity { category, token: String::from(token) };
    Frame::Binary(si.to_packet().to_bytes())
}

#[test]
fn end_to_end_scenario() {
    let (mut labour, mut guard, pool) = fresh();
    let now = 42i64;

    // the client shows its identity while handshaking
    let e = labour.handle(&mut guard, &pool, identity_frame(constants::CATEGORY_CLIENT, "t1"), now);
    assert!(e.sanction.is_none());
    assert!(e.heartbeat_reset);
    // the identity was the awaited response
    assert!(e.response_timer_stop);
    assert_eq!(labour.state, State::Working);
    assert_eq!(labour.category, Some(Category::Client));
    assert_eq!(labour.token, String::from("t1"));
    // the server answers with the negotiated rate-limit parameters
    assert_eq!(e.replies.len(), 1);
    let (p, _) = Packet::read_from_bytes(&e.replies[0], 0).unwrap();
    assert_eq!(p.id, constants::RATE_LIMIT);
    let (rl, _) = RateLimit::read_from_bytes(&p.data, 0).unwrap();
    assert_eq!(rl, RateLimit { interval: 10000, max_burst: 6 });

    // the client applies for two rooms
    let ta = TaskApplication { room_count: 2 };
    let e = labour.handle(&mut guard, &pool, Frame::Binary(ta.to_packet().to_bytes()), now);
    assert!(e.sanction.is_none());
    assert_eq!(e.replies.len(), 1);
    let (p, _) = Packet::read_from_bytes(&e.replies[0], 0).unwrap();
    assert_eq!(p.id, constants::TASK_CHANGE);
    let (tc, _) = TaskChange::read_from_bytes(&p.data, 0).unwrap();
    assert_eq!(tc.room_count, 2);
    assert_eq!(tc.room_ids, vec![String::from("A"), String::from("B")]);
}

#[test]
fn task_application_while_handshaking_is_unexpected() {
    let (mut labour, mut guard, pool) = fresh();
    let ta = TaskApplication { room_count: 2 };
    let e = labour.handle(&mut guard, &pool, Frame::Binary(ta.to_packet().to_bytes()), 0);
    assert_eq!(e.sanction, Some(Sanction::Kicked(kick::Reason::UnexpectedPacket)));
    assert_eq!(labour.state, State::Handshaking);
    assert!(e.replies.is_empty());
}

#[test]
fn malformed_frame_is_invalid_packet() {
    let (mut labour, mut guard, pool) = fresh();
    // a lone continuation byte: no frame can be decoded
    let e = labour.handle(&mut guard, &pool, Frame::Binary(vec![0x80]), 0);
    assert_eq!(e.sanction, Some(Sanction::Kicked(kick::Reason::InvalidPacket)));
}

#[test]
fn unknown_and_misdirected_ids_are_unexpected() {
    let (mut labour, mut guard, pool) = fresh();
    // a data report is never the peer's to open with
    let mut bytes: Vec<u8> = Vec::new();
    synmon::codec::encode_varint(0, &mut bytes);
    synmon::codec::encode_varint(constants::DATA_REPORT, &mut bytes);
    let e = labour.handle(&mut guard, &pool, Frame::Binary(bytes), 0);
    assert_eq!(e.sanction, Some(Sanction::Kicked(kick::Reason::UnexpectedPacket)));

    // an id outside the protocol entirely
    let (mut labour, mut guard, pool) = fresh();
    let mut bytes: Vec<u8> = Vec::new();
    synmon::codec::encode_varint(0, &mut bytes);
    synmon::codec::encode_varint(0x99, &mut bytes);
    let e = labour.handle(&mut guard, &pool, Frame::Binary(bytes), 0);
    assert_eq!(e.sanction, Some(Sanction::Kicked(kick::Reason::UnexpectedPacket)));
}

#[test]
fn bad_category_is_invalid_packet() {
    let (mut labour, mut guard, pool) = fresh();
    let e = labour.handle(&mut guard, &pool, identity_frame(7, "t1"), 0);
    assert_eq!(e.sanction, Some(Sanction::Kicked(kick::Reason::InvalidPacket)));
    assert_eq!(labour.state, State::Handshaking);
}

#[test]
fn second_identity_is_unexpected() {
    let (mut labour, mut guard, pool) = fresh();
    let e = labour.handle(&mut guard, &pool, identity_frame(constants::CATEGORY_CLIENT, "t1"), 0);
    assert!(e.sanction.is_none());
    let e = labour.handle(&mut guard, &pool, identity_frame(constants::CATEGORY_CLIENT, "t2"), 0);
    assert_eq!(e.sanction, Some(Sanction::Kicked(kick::Reason::UnexpectedPacket)));
}

#[test]
fn close_frame_ends_without_guard() {
    let (mut labour, mut guard, pool) = fresh();
    let e = labour.handle(&mut guard, &pool, Frame::Close, 0);
    assert!(e.closed);
    assert!(e.sanction.is_none());
    // closing booked no kick: the next nine kicks still do not ban
    for _ in 0..9 {
        labour.kick(&mut guard, kick::Reason::InvalidPacket, 0);
    }
    assert!(guard.check_token_at("", 0));
}

#[test]
fn unsupported_frame_is_incorrect_data_format() {
    let (mut labour, mut guard, pool) = fresh();
    let e = labour.handle(&mut guard, &pool, Frame::Unsupported, 0);
    assert_eq!(e.sanction, Some(Sanction::Kicked(kick::Reason::IncorrectDataFormat)));
}

#[test]
fn rate_limiter_eventually_rejects() {
    let settings = {
        let mut s = Settings::default();
        // one token per hour: only the burst is ever admitted here
        s.rate_limit.interval = 3_600_000;
        s.rate_limit.max_burst = 1;
        s
    };
    let mut labour = Labour::new(conn_info(), &settings);
    labour.started();
    let mut guard = Guard::new(GuardConfig { kick_count: 10, ban_time: 24 });
    let pool = Pool::new();
    let e = labour.handle(&mut guard, &pool, Frame::Close, 0);
    assert!(e.sanction.is_none());
    let e = labour.handle(&mut guard, &pool, Frame::Close, 0);
    assert_eq!(e.sanction, Some(Sanction::Kicked(kick::Reason::RateLimit)));
}

#[test]
fn timer_expiries_kick() {
    let (labour, mut guard, _pool) = fresh();
    let s = labour.on_response_timeout(&mut guard, 0);
    assert_eq!(s, Sanction::Kicked(kick::Reason::ResponseTimeout));
    let s = labour.on_heartbeat_timeout(&mut guard, 0);
    assert_eq!(s, Sanction::Kicked(kick::Reason::HeartbeatTimeout));
}

#[test]
fn timer_durations_follow_the_rate_limit() {
    let (labour, _guard, _pool) = fresh();
    assert_eq!(labour.response_timeout_ms(), 20000);
    assert_eq!(labour.heartbeat_timeout_ms(), 60000);
}

#[test]
fn batch_processes_frames_in_order_until_sanction() {
    let (mut labour, mut guard, pool) = fresh();
    // identity and task application arrive in one binary batch
    let mut bytes = ShowIdentity { category: constants::CATEGORY_CLIENT, token: String::from("t1") }
        .to_packet()
        .to_bytes();
    bytes.extend(TaskApplication { room_count: 1 }.to_packet().to_bytes());
    let e = labour.handle(&mut guard, &pool, Frame::Binary(bytes), 0);
    assert!(e.sanction.is_none());
    assert_eq!(e.replies.len(), 2);
    // nothing after a sanction is processed: garbage then an identity
    let (mut labour, mut guard, pool) = fresh();
    let mut bytes = vec![0x80u8];
    bytes.extend(identity_frame_bytes());
    let e = labour.handle(&mut guard, &pool, Frame::Binary(bytes), 0);
    assert_eq!(e.sanction, Some(Sanction::Kicked(kick::Reason::InvalidPacket)));
    assert_eq!(labour.state, State::Handshaking);
}

fn identity_frame_bytes() -> Vec<u8> {
    ShowIdentity { category: constants::CATEGORY_CLIENT, token: String::from("t1") }
        .to_packet()
        .to_bytes()
}

#[test]
fn settings_merge_keeps_and_replaces() {
    let mut s = Settings::default();
    let mut o = Overrides::default();
    o.port = Some(9999);
    o.rate_interval = Some(500);
    o.guard_kick_count = Some(3);
    s.done(o);
    assert_eq!(s.port, 9999);
    assert_eq!(s.rate_limit.interval, 500);
    assert_eq!(s.rate_limit.max_burst, 6);
    assert_eq!(s.guard.kick_count, 3);
    assert_eq!(s.guard.ban_time, 24);
    assert_eq!(s.ip, String::from("0.0.0.0"));
}

#[test]
fn config_defaults() {
    let c = Config::default();
    assert_eq!(c.ip, String::from("0.0.0.0"));
    assert_eq!(c.port, 8181);
    assert_eq!(c.rate_limit.interval, 10000);
    assert_eq!(c.rate_limit.max_burst, 6);
    assert_eq!(c.guard.kick_count, 10);
    assert_eq!(c.guard.ban_time, 24);
    assert_eq!(c.pool.size, 10000);
    assert_eq!(c.log.level, String::from("INFO"));
    assert_eq!(c.redis.timeout, 30);
    assert_eq!(c.token_config.client, String::from("./client_tokens.txt"));
}
