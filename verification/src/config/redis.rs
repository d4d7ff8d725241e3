//! Configuration of the durable key-value store the guard and pool can
//! persist their records in.

use vstd::prelude::*;

verus! {

use vstd::string::StringExecFns;

/// Where the store lives and how long to wait for it, in seconds.
#[derive(Debug, Clone, PartialEq, Eq, Hash)]
pub struct Redis {
    pub connection_parameter: String,
    pub timeout: i32,
}

fn _connection_parameter() -> (r: String)
    ensures
        r@ == "redis://127.0.0.1:6379"@,
{
    String::from_str("redis://127.0.0.1:6379")
}

fn _timeout() -> (r: i32)
    ensures
        r == 30,
{
    30
}

impl Redis {
    /// The local store, with a thirty-second timeout.
    pub open spec fn is_default(&self) -> bool {
        self.connection_parameter@ == "redis://127.0.0.1:6379"@ && self.timeout == 30
    }
}

impl Default for Redis {
    fn default() -> (r: Self)
        ensures
            r.is_default(),
    {
        Redis { connection_parameter: _connection_parameter(), timeout: _timeout() }
    }
}

} // verus!
