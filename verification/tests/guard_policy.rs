use synmon::config::guard::Guard as GuardConfig;
use synmon::guard::Guard;
use synmon::guard::Sanction;
use synmon::reason::ban;
use synmon::reason::kick;

fn fresh_guard() -> Guard {
    Guard::new(GuardConfig { kick_count: 10, ban_time: 24 })
}

#[test]
fn escalation_at_the_tenth_kick() {
    let mut g = fresh_guard();
    let now = 1_000_000i64;
    for _ in 0..9 {
        let s = g.kick("10.0.0.1", "t1", kick::Reason::UnexpectedPacket, now);
        assert_eq!(s, Sanction::Kicked(kick::Reason::UnexpectedPacket));
    }
    // nine kicks leave the token un-banned
    assert!(g.check_token_at("t1", now));
    assert!(g.check_addr_at("10.0.0.1", now));
    // the tenth bans it
    let s = g.kick("10.0.0.1", "t1", kick::Reason::UnexpectedPacket, now);
    assert_eq!(s, Sanction::Banned(ban::Reason::TooManyKicks));
    assert!(!g.check_token_at("t1", now));
    assert!(!g.check_addr_at("10.0.0.1", now));
    // rejected until the recorded expiry has elapsed
    let until = now + 24 * 3600;
    assert!(!g.check_token_at("t1", until - 1));
    assert!(g.check_token_at("t1", until));
}

#[test]
fn either_counter_triggers_the_ban() {
    let mut g = fresh_guard();
    let now = 5_000i64;
    // the same address misbehaves under ten different tokens
    for i in 0..9 {
        let token = format!("worker-{}", i);
        let s = g.kick("10.0.0.9", token.as_str(), kick::Reason::InvalidPacket, now);
        assert_eq!(s, Sanction::Kicked(kick::Reason::InvalidPacket));
    }
    let s = g.kick("10.0.0.9", "worker-9", kick::Reason::InvalidPacket, now);
    assert_eq!(s, Sanction::Banned(ban::Reason::TooManyKicks));
    assert!(!g.check_addr_at("10.0.0.9", now));
    // the final token was never kicked before, yet the ban covers it too
    assert!(!g.check_token_at("worker-9", now));
}

#[test]
fn first_ban_wins() {
    let mut g = fresh_guard();
    g.ban("10.1.1.1", "t2", 1_000);
    let first_expiry = 1_000 + 24 * 3600;
    // banning again later must not extend the existing record
    g.ban("10.1.1.1", "t2", 50_000);
    assert!(!g.check_addr_at("10.1.1.1", first_expiry - 1));
    assert!(g.check_addr_at("10.1.1.1", first_expiry));
    assert!(!g.check_token_at("t2", first_expiry - 1));
    assert!(g.check_token_at("t2", first_expiry));
}

#[test]
fn unknown_keys_are_admitted() {
    let g = fresh_guard();
    assert!(g.check_addr_at("192.168.0.1", 0));
    assert!(g.check_token_at("nobody", i64::MAX));
    // the wall-clock variants admit an address with no record at any moment
    assert!(g.check_addr("192.168.0.1"));
    assert!(g.check_token("nobody"));
}

#[test]
fn reason_codes_and_descriptions() {
    assert_eq!(kick::Reason::HeartbeatTimeout.code(), 4001);
    assert_eq!(kick::Reason::ResponseTimeout.code(), 4002);
    assert_eq!(kick::Reason::RateLimit.code(), 4003);
    assert_eq!(kick::Reason::TooManyConnections.code(), 4004);
    assert_eq!(kick::Reason::UnexpectedPacket.code(), 4005);
    assert_eq!(kick::Reason::InvalidPacket.code(), 4006);
    assert_eq!(kick::Reason::IncorrectDataFormat.code(), 4007);
    assert_eq!(kick::Reason::HeartbeatTimeout.description(), "heartbeat timeout");
    assert_eq!(kick::Reason::UnexpectedPacket.description(), "unexpected packet");
    assert_eq!(ban::Reason::Banned.code(), 1008);
    assert_eq!(ban::Reason::TooManyKicks.code(), 1008);
    assert_eq!(ban::Reason::InvalidToken.code(), 1008);
    assert_eq!(ban::Reason::TooManyKicks.description(), "too many kicks");
    assert_eq!(ban::Reason::Banned.description(), "banned");
    assert_eq!(ban::Reason::InvalidToken.description(), "invalid token");
}
