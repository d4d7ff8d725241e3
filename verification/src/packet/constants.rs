//! Numeric identifiers carried on the wire: frame ids and the worker
//! categories of the identity packet.

use vstd::prelude::*;

use crate::codec::VarInt;

verus! {

pub const SHOW_IDENTITY: VarInt = 0x01;

pub const RATE_LIMIT: VarInt = 0x02;

pub const TASK_APPLICATION: VarInt = 0x03;

pub const TASK_CHANGE: VarInt = 0x04;

pub const TASK_CONFIRM: VarInt = 0x05;

pub const DATA_REPORT: VarInt = 0x06;

pub const NOTIFICATION: VarInt = 0xFF;

pub const CATEGORY_CLIENT: VarInt = 1;

pub const CATEGORY_SERVER: VarInt = 2;

pub const CATEGORY_ADMIN: VarInt = 3;

} // verus!
