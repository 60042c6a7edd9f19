//! gai: the decision path that turns a host name into addresses on Linux.
//!
//! The library parses the name-resolution configuration (`nsswitch.conf`,
//! `resolv.conf`, `gai.conf`, `/etc/hosts`), walks the `hosts:` chain the
//! way glibc's NSS dispatcher does, decodes the few DNS wire-format pieces
//! that the one-shot mDNS probe needs, and holds the diagnosis rules. It does
//! no I/O: every function takes the text, bytes or answers that a caller
//! gathered and returns plain values.

pub mod ip;
pub mod notation;
pub mod text;
pub mod types;
pub mod sim;
pub mod mdns;
pub mod config;
pub mod resolved;
pub mod runtime;
pub mod style;
pub mod resolver;
pub mod platform;
pub mod reality;
pub mod diagnosis;
pub mod json;

pub use ip::IpAddr;
