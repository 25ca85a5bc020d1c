//! The decisions of a packet sniffer that watches TCP handshakes on a Linux
//! interface, and of the relay that forwards the connections it watches.

pub mod backend;
pub mod bpf;
pub mod error;
pub mod filter;
pub mod filter_builder;
pub mod handoff;
pub mod interface;
pub mod listener;
pub mod net;
pub mod platform;
pub mod proto;
pub mod relay;
pub mod text;
