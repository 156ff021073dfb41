//! The proxied terminal: what a read of the keyboard means, what a mux sends,
//! and what stands on the screen.
pub mod app;
pub mod control_proto;
pub mod decode;
pub mod dispatch;
pub mod input;
pub mod key;
pub mod mouse;
pub mod registry;
pub mod run;
pub mod screen;
pub mod term;
