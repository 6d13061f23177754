//! Relay of 802.11r RRB frames from switch-facing ports to hostapd.
pub mod common;
pub mod config;
pub mod daemon;
pub mod ebpf;
pub mod hostapd;
pub mod loader;
pub mod packet;
pub mod proto;
pub mod relay;
pub mod tap;
pub mod text;
pub mod wire;
