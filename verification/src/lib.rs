//! xmux: one switcher over the terminal multiplexers of many machines.
//!
//! The library holds what the program decides and computes; sockets, processes,
//! files and the terminal are handled around it.
pub mod bytes;
pub mod driver;
pub mod link;
pub mod model;
pub mod mux;
pub mod number;
pub mod paths;
pub mod provision;
pub mod proxy;
pub mod session;
pub mod shell;
pub mod table;
pub mod text;
