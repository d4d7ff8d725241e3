//! Connection lifecycle and trust enforcement for a live-room monitoring
//! server: the binary wire codec, the typed packet schemas, the per-connection
//! session state machine, the kick/ban policy ("guard"), and the weighted
//! room-assignment pool.

pub mod codec;
pub mod config;
pub mod guard;
pub mod labour;
pub mod limiter;
pub mod packet;
pub mod pool;
pub mod reason;
pub mod settings;
pub mod shared_map;
pub mod timestamp;
