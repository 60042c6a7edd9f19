//! Which OS-level name resolution model is simulated, and where its
//! configuration lives.

pub mod paths;

use vstd::prelude::*;

verus! {

/// Which OS-level name resolution model is simulated. Only Linux is: macOS
/// resolves through mDNSResponder and largely ignores resolv.conf, and
/// Windows (DNS Client service, LLMNR, NetBIOS) is further still, so each
/// would need a model of its own.
#[derive(Debug, Clone, Copy, PartialEq, Eq, Structural)]
pub enum Platform {
    Linux,
}

/// The platform being simulated: always [`Platform::Linux`], the only one
/// modelled.
pub fn detect() -> (r: Platform)
    ensures
        r == Platform::Linux,
{
    Platform::Linux
}

} // verus!
