//! Well-known configuration file paths that the parsers' input comes from.

use vstd::prelude::*;

verus! {

/// The `hosts:` line here drives the whole simulation.
pub const NSSWITCH_CONF: &'static str = "/etc/nsswitch.conf";

/// May be a symlink to systemd-resolved's stub (see
/// [`crate::types::ResolvConfig::is_systemd_stub`]).
pub const RESOLV_CONF: &'static str = "/etc/resolv.conf";

/// The RFC 6724 address-selection policy; its absence is meaningful, not
/// an error (see [`crate::config::parse_gai_conf`]).
pub const GAI_CONF: &'static str = "/etc/gai.conf";

/// Consulted by the `files` NSS source.
pub const HOSTS: &'static str = "/etc/hosts";

} // verus!
