//! Connection identifier management, frames, scheduling and capsules for
//! multipath QUIC endpoints.

use vstd::prelude::*;

pub mod bounded;
pub mod buffer;
pub mod bytes;
pub mod capsule;
pub mod cid;
pub mod datagram;
pub mod error;
pub mod frame;
pub mod multipath;
pub mod net;
pub mod packet;
pub mod path;
pub mod ranges;
pub mod registry;
pub mod send;
pub mod varint;
pub mod wire;

verus! {

} // verus!
