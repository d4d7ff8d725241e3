//! Configuration of the operational log.

use vstd::prelude::*;

verus! {

use vstd::string::StringExecFns;

/// Whether and where log files are written, and at which level.
#[derive(Debug, Clone, PartialEq, Eq, Hash)]
pub struct Log {
    pub enable_file: bool,
    pub file_directory: String,
    pub level: String,
}

fn _enable_file() -> (r: bool)
    ensures
        r,
{
    true
}

fn _file_directory() -> (r: String)
    ensures
        r@ == "./logs"@,
{
    String::from_str("./logs")
}

fn _level() -> (r: String)
    ensures
        r@ == "INFO"@,
{
    String::from_str("INFO")
}

impl Log {
    /// Log files on, under `./logs`, at level INFO.
    pub open spec fn is_default(&self) -> bool {
        &&& self.enable_file
        &&& self.file_directory@ == "./logs"@
        &&& self.level@ == "INFO"@
    }
}

impl Default for Log {
    fn default() -> (r: Self)
        ensures
            r.is_default(),
    {
        Log { enable_file: _enable_file(), file_directory: _file_directory(), level: _level() }
    }
}

} // verus!
