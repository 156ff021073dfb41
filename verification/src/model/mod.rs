//! The domain: machines, sources, sessions, and what is asked of them.
pub mod action;
pub mod death;
pub mod host;
pub mod hosts;
pub mod mux;
pub mod operation;
pub mod plan;
pub mod selection;
pub mod server_model;
pub mod source;
pub mod transport;

pub use action::{Action, Command, EventEffect, FocusTarget, MuxOp};
pub use death::{
    display_tty_marker_prefix, matches_display_tty, parse_display_tty_marker, psmux_port_path,
};
pub use host::{Host, HostDisplay, Liveness};
pub use hosts::Hosts;
pub use operation::Operation;
pub use plan::{DeathSignal, DisplayTty, EventSource};
pub use selection::Selection;
pub use server_model::ServerModel;
