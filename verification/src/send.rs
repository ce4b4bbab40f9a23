//! Send pipeline: packet construction and frame assembly.
//!
//! A packet is assembled in stages. Each stage decides which frames go into the
//! packet, given the state of the connection and the room that is left, and
//! records what was sent.

pub mod assembly;
pub mod begin;
pub mod cid_laws;
pub mod cids;
pub mod control;
pub mod data;
pub mod deferred;
pub mod finish;
pub mod flow;
pub mod laws;
pub mod lists;
pub mod lost;
pub mod lost_laws;
pub mod packet_laws;
pub mod packing;
pub mod path_laws;
pub mod plan;
pub mod probes;
pub mod room;
pub mod state;
