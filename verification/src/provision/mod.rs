//! Which machines there are, and what runs on them.
pub mod config;
pub mod env;
pub mod glob;
pub mod ipv4;
pub mod mdns;
pub mod neighbor;
pub mod netlink;
pub mod roster;
pub mod ssh_config;
