//! The kick/ban policy engine ("guard"). It counts kicks per source address
//! and per worker token in concurrency-safe shared maps, escalates to a ban
//! when either counter reaches a positive multiple of the configured
//! threshold, and answers admission checks against the ban records, judging
//! expiry by comparing the recorded time to the current time at lookup.

use vstd::prelude::*;

use crate::config;
use crate::reason::ban;
use crate::reason::kick;
use crate::shared_map::shared_map_get;
use crate::shared_map::shared_map_insert;
use crate::shared_map::shared_map_new;
use crate::shared_map::SharedMap;
use crate::timestamp::now_timestamp;

verus! {

use vstd::arithmetic::div_mod::lemma_small_mod;
use vstd::arithmetic::div_mod::lemma_mod_self_0;
use crate::shared_map::shared_map_contents;
use crate::shared_map::shared_map_is_empty;

/// The guard's record tables, as the contracts speak of them: kick counters
/// and ban expiry times, keyed by address and by token.
pub ghost struct GuardState {
    pub kicked_ips: Map<Seq<char>, i64>,
    pub kicked_tokens: Map<Seq<char>, i64>,
    pub banned_ips: Map<Seq<char>, i64>,
    pub banned_tokens: Map<Seq<char>, i64>,
}

/// A key is admitted unless a ban record for it has not yet expired.
pub open spec fn admitted(banned: Map<Seq<char>, i64>, key: Seq<char>, now: i64) -> bool {
    !banned.dom().contains(key) || banned[key] <= now
}

/// The kick count a key stands at: zero if it was never kicked.
pub open spec fn prev_count(m: Map<Seq<char>, i64>, key: Seq<char>) -> i64 {
    if m.dom().contains(key) {
        m[key]
    } else {
        0
    }
}

/// One more kick, stopping at the counter's ceiling.
pub open spec fn next_count(c: i64) -> i64 {
    if c == i64::MAX {
        c
    } else {
        (c + 1) as i64
    }
}

/// The counter table after one more kick of `key`.
pub open spec fn bumped(m: Map<Seq<char>, i64>, key: Seq<char>) -> Map<Seq<char>, i64> {
    m.insert(key, next_count(prev_count(m, key)))
}

/// `i64` addition that stops at the type's bounds.
pub open spec fn sat_add_i64(a: i64, b: i64) -> i64 {
    if a + b > i64::MAX {
        i64::MAX
    } else if a + b < i64::MIN {
        i64::MIN
    } else {
        (a + b) as i64
    }
}

/// When a ban pronounced now expires: the configured duration, in hours,
/// from now.
pub open spec fn ban_until_of(now: i64, hours: i32) -> i64 {
    sat_add_i64(now, (hours * 3600) as i64)
}

/// A ban table after banning `key` until `until`: the first ban wins, an
/// existing record is never changed.
pub open spec fn ban_step(m: Map<Seq<char>, i64>, key: Seq<char>, until: i64) -> Map<
    Seq<char>,
    i64,
> {
    if m.dom().contains(key) {
        m
    } else {
        m.insert(key, until)
    }
}

/// The guard's state after banning both keys of a connection.
pub open spec fn ban_spec(s: GuardState, addr: Seq<char>, token: Seq<char>, until: i64) -> GuardState {
    GuardState {
        banned_ips: ban_step(s.banned_ips, addr, until),
        banned_tokens: ban_step(s.banned_tokens, token, until),
        ..s
    }
}

/// Whether one more kick of these keys crosses the threshold: either new
/// counter standing at a positive multiple of `k`.
pub open spec fn kick_escalates(s: GuardState, addr: Seq<char>, token: Seq<char>, k: int) -> bool {
    ||| (next_count(prev_count(s.kicked_ips, addr)) as int) % k == 0
    ||| (next_count(prev_count(s.kicked_tokens, token)) as int) % k == 0
}

/// The guard's state after one kick: both counters bumped, and both keys
/// banned if either counter crossed the threshold.
pub open spec fn kick_spec(
    s: GuardState,
    addr: Seq<char>,
    token: Seq<char>,
    k: int,
    until: i64,
) -> GuardState {
    let b = GuardState {
        kicked_ips: bumped(s.kicked_ips, addr),
        kicked_tokens: bumped(s.kicked_tokens, token),
        ..s
    };
    if kick_escalates(s, addr, token, k) {
        ban_spec(b, addr, token, until)
    } else {
        b
    }
}

/// All counters are non-negative: what kicks alone can produce.
pub open spec fn counts_ok(m: Map<Seq<char>, i64>) -> bool {
    forall|k: Seq<char>| #[trigger] m.dom().contains(k) ==> m[k] >= 0
}

/// How a kick ends the connection: a plain closure with the kick reason, or
/// an escalated ban.
#[derive(Debug, Clone, Copy, PartialEq, Eq, Structural)]
pub enum Sanction {
    Kicked(kick::Reason),
    Banned(ban::Reason),
}

/// The policy engine: its configuration and its four record tables, shared
/// across all connections.
pub struct Guard {
    pub cfg: config::guard::Guard,
    pub kicked_ips: SharedMap,
    pub kicked_tokens: SharedMap,
    pub banned_ips: SharedMap,
    pub banned_tokens: SharedMap,
}

impl Guard {
    /// The record tables, read off the shared maps.
    pub open spec fn state(&self) -> GuardState {
        GuardState {
            kicked_ips: shared_map_contents(self.kicked_ips),
            kicked_tokens: shared_map_contents(self.kicked_tokens),
            banned_ips: shared_map_contents(self.banned_ips),
            banned_tokens: shared_map_contents(self.banned_tokens),
        }
    }

    /// A positive threshold, and only kick-made values in the counter
    /// tables.
    pub open spec fn wf(&self) -> bool {
        &&& self.cfg.kick_count >= 1
        &&& counts_ok(self.state().kicked_ips)
        &&& counts_ok(self.state().kicked_tokens)
    }

    /// A fresh guard with empty record tables. The threshold must be
    /// positive: a kick divides by it.
    pub fn new(cfg: config::guard::Guard) -> (g: Guard)
        requires
            cfg.kick_count >= 1,
        ensures
            g.wf(),
            g.cfg == cfg,
            g.state().kicked_ips == Map::<Seq<char>, i64>::empty(),
            g.state().kicked_tokens == Map::<Seq<char>, i64>::empty(),
            g.state().banned_ips == Map::<Seq<char>, i64>::empty(),
            g.state().banned_tokens == Map::<Seq<char>, i64>::empty(),
    {
        let g = Guard {
            cfg,
            kicked_ips: shared_map_new(),
            kicked_tokens: shared_map_new(),
            banned_ips: shared_map_new(),
            banned_tokens: shared_map_new(),
        };
        g
    }

    /// Whether an address is admitted when the clock stands at `now`: yes
    /// unless a ban record exists whose expiry lies after `now`.
    pub fn check_addr_at(&self, addr: &str, now: i64) -> (r: bool)
        ensures
            r == admitted(self.state().banned_ips, addr@, now),
    {
        match shared_map_get(&self.banned_ips, addr) {
            None => true,
            Some(t) => t <= now,
        }
    }

    /// Admission of an address at the wall clock's current moment. Whatever
    /// the clock says, an address with no ban record is admitted.
    pub fn check_addr(&self, addr: &str) -> (r: bool)
        ensures
            !self.state().banned_ips.dom().contains(addr@) ==> r,
    {
        let now = now_timestamp();
        self.check_addr_at(addr, now)
    }

    /// Whether a token is admitted when the clock stands at `now`: yes
    /// unless a ban record exists whose expiry lies after `now`.
    pub fn check_token_at(&self, token: &str, now: i64) -> (r: bool)
        ensures
            r == admitted(self.state().banned_tokens, token@, now),
    {
        match shared_map_get(&self.banned_tokens, token) {
            None => true,
            Some(t) => t <= now,
        }
    }

    /// Admission of a token at the wall clock's current moment. Whatever the
    /// clock says, a token with no ban record is admitted.
    pub fn check_token(&self, token: &str) -> (r: bool)
        ensures
            !self.state().banned_tokens.dom().contains(token@) ==> r,
    {
        let now = now_timestamp();
        self.check_token_at(token, now)
    }

    /// Bans the connection's address and token until the configured duration
    /// from `now` has passed. The first ban wins: a key already banned keeps
    /// its existing expiry. The kick counters are untouched.
    pub fn ban(&mut self, addr: &str, token: &str, now: i64)
        requires
            old(self).wf(),
        ensures
            final(self).wf(),
            final(self).cfg == old(self).cfg,
            final(self).state() == ban_spec(
                old(self).state(),
                addr@,
                token@,
                ban_until_of(now, old(self).cfg.ban_time),
            ),
    {
        let delta: i64 = (self.cfg.ban_time as i64) * 3600;
        let until = match now.checked_add(delta) {
            Some(t) => t,
            None => {
                if delta >= 0 {
                    i64::MAX
                } else {
                    i64::MIN
                }
            },
        };
        assert(until == ban_until_of(now, self.cfg.ban_time));
        match shared_map_get(&self.banned_ips, addr) {
            None => {
                shared_map_insert(&mut self.banned_ips, addr.to_owned(), until);
            },
            Some(_) => {},
        }
        match shared_map_get(&self.banned_tokens, token) {
            None => {
                shared_map_insert(&mut self.banned_tokens, token.to_owned(), until);
            },
            Some(_) => {},
        }
    }

    /// Books one kick against the connection's address and token: both
    /// counters go up by one. If either now stands at a positive multiple of
    /// the configured threshold, the connection is banned instead of merely
    /// closed; otherwise it closes with the given reason.
    pub fn kick(&mut self, addr: &str, token: &str, reason: kick::Reason, now: i64) -> (r:
        Sanction)
        requires
            old(self).wf(),
        ensures
            final(self).wf(),
            final(self).cfg == old(self).cfg,
            final(self).state() == kick_spec(
                old(self).state(),
                addr@,
                token@,
                old(self).cfg.kick_count as int,
                ban_until_of(now, old(self).cfg.ban_time),
            ),
            r == (if kick_escalates(
                old(self).state(),
                addr@,
                token@,
                old(self).cfg.kick_count as int,
            ) {
                Sanction::Banned(ban::Reason::TooManyKicks)
            } else {
                Sanction::Kicked(reason)
            }),
    {
        let v0a = match shared_map_get(&self.kicked_ips, addr) {
            Some(c) => c,
            None => 0,
        };
        let v1 = if v0a == i64::MAX {
            v0a
        } else {
            v0a + 1
        };
        let v0t = match shared_map_get(&self.kicked_tokens, token) {
            Some(c) => c,
            None => 0,
        };
        let v2 = if v0t == i64::MAX {
            v0t
        } else {
            v0t + 1
        };
        shared_map_insert(&mut self.kicked_ips, addr.to_owned(), v1);
        shared_map_insert(&mut self.kicked_tokens, token.to_owned(), v2);
        let kk = self.cfg.kick_count as i64;
        if v1 % kk == 0 || v2 % kk == 0 {
            self.ban(addr, token, now);
            Sanction::Banned(ban::Reason::TooManyKicks)
        } else {
            Sanction::Kicked(reason)
        }
    }
}

/// The guard's state after `n` kicks of the same address and token.
pub open spec fn kicks_iter(
    s: GuardState,
    addr: Seq<char>,
    token: Seq<char>,
    k: int,
    until: i64,
    n: nat,
) -> GuardState
    decreases n,
{
    if n == 0 {
        s
    } else {
        kick_spec(kicks_iter(s, addr, token, k, until, (n - 1) as nat), addr, token, k, until)
    }
}

/// Escalation: starting with no records, kicks against the same address and
/// token leave both counters at the number of kicks; below the threshold the
/// keys stay un-banned, and the threshold's own kick bans them, after which
/// the token is rejected exactly until the recorded expiry has passed.
pub proof fn lemma_kick_escalation(
    s: GuardState,
    addr: Seq<char>,
    token: Seq<char>,
    k: int,
    until: i64,
    n: nat,
)
    requires
        1 <= k <= i64::MAX,
        n <= k,
        !s.kicked_ips.dom().contains(addr),
        !s.kicked_tokens.dom().contains(token),
        !s.banned_ips.dom().contains(addr),
        !s.banned_tokens.dom().contains(token),
    ensures
        ({
            let t = kicks_iter(s, addr, token, k, until, n);
            &&& (n >= 1 ==> t.kicked_ips.dom().contains(addr) && t.kicked_ips[addr] == n as i64)
            &&& (n >= 1 ==> t.kicked_tokens.dom().contains(token) && t.kicked_tokens[token]
                == n as i64)
            &&& (n < k ==> !t.banned_ips.dom().contains(addr) && !t.banned_tokens.dom().contains(
                token,
            ))
            &&& (n == k ==> t.banned_tokens.dom().contains(token) && t.banned_tokens[token]
                == until)
            &&& (n == k ==> t.banned_ips.dom().contains(addr) && t.banned_ips[addr] == until)
            &&& (n == k ==> forall|now: i64|
                admitted(t.banned_tokens, token, now) <==> until <= now)
        }),
    decreases n,
{
    if n == 0 {
    } else {
        lemma_kick_escalation(s, addr, token, k, until, (n - 1) as nat);
        let t0 = kicks_iter(s, addr, token, k, until, (n - 1) as nat);
        let v = next_count(prev_count(t0.kicked_tokens, token));
        let va = next_count(prev_count(t0.kicked_ips, addr));
        assert(v == n as i64);
        assert(va == n as i64);
        if n < k {
            lemma_small_mod(n, k as nat);
            assert(!kick_escalates(t0, addr, token, k));
        } else {
            lemma_mod_self_0(k);
            assert(kick_escalates(t0, addr, token, k));
        }
    }
}

/// First ban wins: banning an address that is already banned leaves its
/// existing record, its expiry included, unchanged.
pub proof fn lemma_first_ban_wins(s: GuardState, addr: Seq<char>, token: Seq<char>, until: i64)
    requires
        s.banned_ips.dom().contains(addr),
    ensures
        ban_spec(s, addr, token, until).banned_ips == s.banned_ips,
        ban_spec(s, addr, token, until).banned_ips[addr] == s.banned_ips[addr],
{
}

} // verus!
