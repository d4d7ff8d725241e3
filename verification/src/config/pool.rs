//! Configuration of the room pool.

use vstd::prelude::*;

verus! {

/// The pool's size, its refresh interval in minutes, and how many refresh
/// rounds an entry stays valid for.
#[derive(Debug, Clone, Copy, PartialEq, Eq, Structural)]
pub struct Pool {
    pub size: usize,
    pub refresh_interval: i32,
    pub validity: i32,
}

fn _size() -> (r: usize)
    ensures
        r == 10000,
{
    10000
}

fn _refresh_interval() -> (r: i32)
    ensures
        r == 10,
{
    10
}

fn _validity() -> (r: i32)
    ensures
        r == 3,
{
    3
}

impl Pool {
    /// Ten thousand rooms, refreshed every ten minutes, valid three rounds.
    pub open spec fn is_default(&self) -> bool {
        self.size == 10000 && self.refresh_interval == 10 && self.validity == 3
    }
}

impl Default for Pool {
    fn default() -> (r: Self)
        ensures
            r.is_default(),
    {
        Pool { size: _size(), refresh_interval: _refresh_interval(), validity: _validity() }
    }
}

} // verus!
