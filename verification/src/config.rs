//! The server's configuration: plain values with their defaults. Loading and
//! saving the configuration file is the surrounding program's business; the
//! library only defines the shape and the defaults.

use vstd::prelude::*;

pub mod guard;
pub mod log;
pub mod pool;
pub mod rate_limit;
pub mod redis;
pub mod token_files;

verus! {

use vstd::string::StringExecFns;

/// The whole configuration.
#[derive(Debug, Clone, PartialEq, Eq)]
pub struct Config {
    pub ip: String,
    pub port: u16,
    pub token_config: token_files::TokenFiles,
    pub rate_limit: rate_limit::RateLimit,
    pub guard: guard::Guard,
    pub pool: pool::Pool,
    pub log: log::Log,
    pub redis: redis::Redis,
}

fn _ip() -> (r: String)
    ensures
        r@ == "0.0.0.0"@,
{
    String::from_str("0.0.0.0")
}

fn _port() -> (r: u16)
    ensures
        r == 8181,
{
    8181
}

impl Config {
    /// The default listening address and port, and the defaults of every
    /// section.
    pub open spec fn is_default(&self) -> bool {
        &&& self.ip@ == "0.0.0.0"@
        &&& self.port == 8181
        &&& self.token_config.is_default()
        &&& self.rate_limit.is_default()
        &&& self.guard.is_default()
        &&& self.pool.is_default()
        &&& self.log.is_default()
        &&& self.redis.is_default()
    }
}

impl Default for Config {
    fn default() -> (r: Self)
        ensures
            r.is_default(),
    {
        Config {
            ip: _ip(),
            port: _port(),
            token_config: token_files::TokenFiles::default(),
            rate_limit: rate_limit::RateLimit::default(),
            guard: guard::Guard::default(),
            pool: pool::Pool::default(),
            log: log::Log::default(),
            redis: redis::Redis::default(),
        }
    }
}

} // verus!
