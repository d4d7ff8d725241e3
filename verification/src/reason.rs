//! The close reasons a connection can be terminated with: kicks, which are
//! counted toward the ban threshold, and bans, which persist.

pub mod ban;
pub mod kick;
