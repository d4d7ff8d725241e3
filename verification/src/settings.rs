//! The runtime settings a server instance runs with, and the merge of
//! overrides read from the command line and the configuration file. Reading
//! those sources is the surrounding program's business; it hands the values
//! over as plain options and the merge itself is verified here.

use vstd::prelude::*;

verus! {

use vstd::string::StringExecFns;

/// One token file per worker category.
#[derive(Debug, Clone, PartialEq, Eq, Hash)]
pub struct TokenFiles {
    pub client: String,
    pub server: String,
    pub admin: String,
}

impl TokenFiles {
    /// The three token files beside the server binary.
    pub open spec fn is_default(&self) -> bool {
        &&& self.client@ == "./client_tokens.txt"@
        &&& self.server@ == "./server_tokens.txt"@
        &&& self.admin@ == "./admin_tokens.txt"@
    }
}

impl Default for TokenFiles {
    fn default() -> (r: Self)
        ensures
            r.is_default(),
    {
        TokenFiles {
            client: String::from_str("./client_tokens.txt"),
            server: String::from_str("./server_tokens.txt"),
            admin: String::from_str("./admin_tokens.txt"),
        }
    }
}

/// The token-bucket refill interval in milliseconds and the burst size.
#[derive(Debug, Clone, Copy, PartialEq, Eq, Hash, Structural)]
pub struct RateLimit {
    pub interval: u32,
    pub max_burst: u32,
}

impl RateLimit {
    /// One token every ten seconds, six tokens of burst.
    pub open spec fn is_default(&self) -> bool {
        self.interval == 10000 && self.max_burst == 6
    }
}

impl Default for RateLimit {
    fn default() -> (r: Self)
        ensures
            r.is_default(),
    {
        RateLimit { interval: 10000, max_burst: 6 }
    }
}

/// The kick threshold, the ban duration in hours, and where the guard's
/// records are kept.
#[derive(Debug, Clone, PartialEq, Eq, Hash)]
pub struct Guard {
    pub kick_count: i32,
    pub ban_time: i64,
    pub record_file: String,
}

impl Guard {
    /// Ten kicks escalate to a ban of twenty-four hours.
    pub open spec fn is_default(&self) -> bool {
        &&& self.kick_count == 10
        &&& self.ban_time == 24
        &&& self.record_file@ == "./guard_record"@
    }
}

impl Default for Guard {
    fn default() -> (r: Self)
        ensures
            r.is_default(),
    {
        Guard { kick_count: 10, ban_time: 24, record_file: String::from_str("./guard_record") }
    }
}

/// Whether the log goes to the console and to files, and at which level.
#[derive(Debug, Clone, PartialEq, Eq, Hash)]
pub struct Log {
    pub enable_console: bool,
    pub enable_file: bool,
    pub file_directory: String,
    pub level: String,
}

impl Log {
    /// Console and file logging on, under `./logs`, at level INFO.
    pub open spec fn is_default(&self) -> bool {
        &&& self.enable_console
        &&& self.enable_file
        &&& self.file_directory@ == "./logs"@
        &&& self.level@ == "INFO"@
    }
}

impl Default for Log {
    fn default() -> (r: Self)
        ensures
            r.is_default(),
    {
        Log {
            enable_console: true,
            enable_file: true,
            file_directory: String::from_str("./logs"),
            level: String::from_str("INFO"),
        }
    }
}

/// Everything a server instance runs with.
#[derive(Debug, Clone, PartialEq, Eq)]
pub struct Settings {
    pub debug: bool,
    pub path: String,
    pub ip: String,
    pub port: u16,
    pub token_files: TokenFiles,
    pub rate_limit: RateLimit,
    pub guard: Guard,
    pub log: Log,
}

impl Settings {
    /// Debugging off, the configuration beside the binary, listening
    /// everywhere on port 8181, every section at its default.
    pub open spec fn is_default(&self) -> bool {
        &&& !self.debug
        &&& self.path@ == "config.yml"@
        &&& self.ip@ == "0.0.0.0"@
        &&& self.port == 8181
        &&& self.token_files.is_default()
        &&& self.rate_limit.is_default()
        &&& self.guard.is_default()
        &&& self.log.is_default()
    }
}

impl Default for Settings {
    fn default() -> (r: Self)
        ensures
            r.is_default(),
    {
        Settings {
            debug: false,
            path: String::from_str("config.yml"),
            ip: String::from_str("0.0.0.0"),
            port: 8181,
            token_files: TokenFiles::default(),
            rate_limit: RateLimit::default(),
            guard: Guard::default(),
            log: Log::default(),
        }
    }
}

/// The overriding values the surrounding program collected from the command
/// line and the configuration file: absent means "keep the current value".
#[derive(Debug, Clone, PartialEq, Eq, Default)]
pub struct Overrides {
    pub ip: Option<String>,
    pub port: Option<i64>,
    pub token_client: Option<String>,
    pub token_server: Option<String>,
    pub token_admin: Option<String>,
    pub rate_interval: Option<i64>,
    pub rate_max_burst: Option<i64>,
    pub guard_kick_count: Option<i64>,
    pub guard_ban_time: Option<i64>,
    pub guard_record_file: Option<String>,
    pub log_enable_console: Option<bool>,
    pub log_enable_file: Option<bool>,
    pub log_file_directory: Option<String>,
    pub log_level: Option<String>,
}

impl Settings {
    /// Merges the overrides in: every value that was given replaces the
    /// current one, truncated to its field's width as the wire carries it;
    /// every absent value keeps the current one.
    #[verifier::rlimit(60)]
    pub fn done(&mut self, o: Overrides)
        ensures
            final(self).debug == old(self).debug,
            final(self).path == old(self).path,
            final(self).ip@ == (match o.ip {
                Some(s) => s@,
                None => old(self).ip@,
            }),
            final(self).port == (match o.port {
                Some(x) => x as u16,
                None => old(self).port,
            }),
            final(self).token_files.client@ == (match o.token_client {
                Some(s) => s@,
                None => old(self).token_files.client@,
            }),
            final(self).token_files.server@ == (match o.token_server {
                Some(s) => s@,
                None => old(self).token_files.server@,
            }),
            final(self).token_files.admin@ == (match o.token_admin {
                Some(s) => s@,
                None => old(self).token_files.admin@,
            }),
            final(self).rate_limit.interval == (match o.rate_interval {
                Some(x) => x as u32,
                None => old(self).rate_limit.interval,
            }),
            final(self).rate_limit.max_burst == (match o.rate_max_burst {
                Some(x) => x as u32,
                None => old(self).rate_limit.max_burst,
            }),
            final(self).guard.kick_count == (match o.guard_kick_count {
                Some(x) => x as i32,
                None => old(self).guard.kick_count,
            }),
            final(self).guard.ban_time == (match o.guard_ban_time {
                Some(x) => x,
                None => old(self).guard.ban_time,
            }),
            final(self).guard.record_file@ == (match o.guard_record_file {
                Some(s) => s@,
                None => old(self).guard.record_file@,
            }),
            final(self).log.enable_console == (match o.log_enable_console {
                Some(b) => b,
                None => old(self).log.enable_console,
            }),
            final(self).log.enable_file == (match o.log_enable_file {
                Some(b) => b,
                None => old(self).log.enable_file,
            }),
            final(self).log.file_directory@ == (match o.log_file_directory {
                Some(s) => s@,
                None => old(self).log.file_directory@,
            }),
            final(self).log.level@ == (match o.log_level {
                Some(s) => s@,
                None => old(self).log.level@,
            }),
    {
        match o.ip {
            Some(s) => {
                self.ip = s;
            },
            None => {},
        }
        match o.port {
            Some(x) => {
                self.port = x as u16;
            },
            None => {},
        }
        apply_token_files(&mut self.token_files, o.token_client, o.token_server, o.token_admin);
        apply_rate_limit(&mut self.rate_limit, o.rate_interval, o.rate_max_burst);
        apply_guard(&mut self.guard, o.guard_kick_count, o.guard_ban_time, o.guard_record_file);
        apply_log(
            &mut self.log,
            o.log_enable_console,
            o.log_enable_file,
            o.log_file_directory,
            o.log_level,
        );
    }
}

fn apply_token_files(
    t: &mut TokenFiles,
    client: Option<String>,
    server: Option<String>,
    admin: Option<String>,
)
    ensures
        final(t).client@ == (match client {
            Some(s) => s@,
            None => old(t).client@,
        }),
        final(t).server@ == (match server {
            Some(s) => s@,
            None => old(t).server@,
        }),
        final(t).admin@ == (match admin {
            Some(s) => s@,
            None => old(t).admin@,
        }),
{
    match client {
        Some(s) => {
            t.client = s;
        },
        None => {},
    }
    match server {
        Some(s) => {
            t.server = s;
        },
        None => {},
    }
    match admin {
        Some(s) => {
            t.admin = s;
        },
        None => {},
    }
}

fn apply_rate_limit(r: &mut RateLimit, interval: Option<i64>, max_burst: Option<i64>)
    ensures
        final(r).interval == (match interval {
            Some(x) => x as u32,
            None => old(r).interval,
        }),
        final(r).max_burst == (match max_burst {
            Some(x) => x as u32,
            None => old(r).max_burst,
        }),
{
    match interval {
        Some(x) => {
            r.interval = x as u32;
        },
        None => {},
    }
    match max_burst {
        Some(x) => {
            r.max_burst = x as u32;
        },
        None => {},
    }
}

fn apply_guard(
    g: &mut Guard,
    kick_count: Option<i64>,
    ban_time: Option<i64>,
    record_file: Option<String>,
)
    ensures
        final(g).kick_count == (match kick_count {
            Some(x) => x as i32,
            None => old(g).kick_count,
        }),
        final(g).ban_time == (match ban_time {
            Some(x) => x,
            None => old(g).ban_time,
        }),
        final(g).record_file@ == (match record_file {
            Some(s) => s@,
            None => old(g).record_file@,
        }),
{
    match kick_count {
        Some(x) => {
            g.kick_count = x as i32;
        },
        None => {},
    }
    match ban_time {
        Some(x) => {
            g.ban_time = x;
        },
        None => {},
    }
    match record_file {
        Some(s) => {
            g.record_file = s;
        },
        None => {},
    }
}

fn apply_log(
    l: &mut Log,
    enable_console: Option<bool>,
    enable_file: Option<bool>,
    file_directory: Option<String>,
    level: Option<String>,
)
    ensures
        final(l).enable_console == (match enable_console {
            Some(b) => b,
            None => old(l).enable_console,
        }),
        final(l).enable_file == (match enable_file {
            Some(b) => b,
            None => old(l).enable_file,
        }),
        final(l).file_directory@ == (match file_directory {
            Some(s) => s@,
            None => old(l).file_directory@,
        }),
        final(l).level@ == (match level {
            Some(s) => s@,
            None => old(l).level@,
        }),
{
    match enable_console {
        Some(b) => {
            l.enable_console = b;
        },
        None => {},
    }
    match enable_file {
        Some(b) => {
            l.enable_file = b;
        },
        None => {},
    }
    match file_directory {
        Some(s) => {
            l.file_directory = s;
        },
        None => {},
    }
    match level {
        Some(s) => {
            l.level = s;
        },
        None => {},
    }
}

} // verus!
