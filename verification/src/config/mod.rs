//! Parsers for the name-resolution configuration files. Each takes the
//! text of a file (and the path it was read from, for error messages);
//! reading the file is the caller's business.

mod gai_conf;
mod hosts;
mod nsswitch;
mod resolv_conf;

pub use gai_conf::{parse_gai_conf, spec_gai_conf};
pub use hosts::{parse_hosts, spec_hosts};
pub use nsswitch::parse_nsswitch;
pub use resolv_conf::parse_resolv_conf;
pub use resolv_conf::spec_resolv_conf;

pub use nsswitch::{spec_nsswitch, spec_criteria, spec_hosts_line, spec_source};

use vstd::prelude::*;

verus! {

/// Why a configuration file could not be turned into a configuration.
#[derive(Debug, Clone)]
pub enum ConfigError {
    /// The file couldn't be read at all (missing, permissions, etc).
    /// Note: an absent `/etc/gai.conf` is *not* an error — see
    /// [`parse_gai_conf`].
    Io { path: String, detail: String },
    /// The file was read but a line didn't parse — e.g. an unrecognized
    /// `[STATUS=action]` clause in nsswitch.conf.
    Parse { path: String, line_no: usize, detail: String },
}

/// `e` is the parse error for line `line_no` of `path` with message `detail`.
pub open spec fn is_parse_error(e: ConfigError, path: Seq<char>, line_no: int, detail: Seq<char>) -> bool {
    match e {
        ConfigError::Parse { path: p, line_no: n, detail: d } => p@ == path && n == line_no && d@ == detail,
        _ => false,
    }
}

} // verus!
