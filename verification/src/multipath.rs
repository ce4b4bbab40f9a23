//! Multipath extension for QUIC.

pub mod frame_laws;
pub mod frames;
pub mod layout_laws;
pub mod path_info;
pub mod path_laws;
pub mod pktns;
pub mod reinjection;
pub mod scheduler;
pub mod schedulers;
