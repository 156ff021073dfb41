//! How a mux server exposes its sessions.
use vstd::prelude::*;

verus! {

/// `Shared`: one aggregate server holds every session, and one PTY per host is
/// moved between them. `PerSession`: one server, and one PTY, per session.
#[derive(Clone, Copy, Debug, PartialEq, Eq, Structural)]
pub enum ServerModel {
    Shared,
    PerSession,
}

} // verus!
