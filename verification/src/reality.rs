//! The independent "reality check": a direct DNS query, bypassing NSS, used
//! to cross-check the simulated chain.

use crate::ip::IpAddr;
use crate::resolver::{DnsReply, DnsReplyModel};
use crate::types::{ResolvConfig, ResolvModel};
use vstd::prelude::*;

verus! {

/// The result of the out-of-band DNS query: which servers were asked and
/// what they answered. It asks the system's actual nameservers, never a
/// hard-coded public resolver, which would report false gaps on any
/// split-horizon, VPN or corporate DNS setup.
pub struct RealityCheck {
    pub queried_servers: Vec<IpAddr>,
    pub addresses: Vec<IpAddr>,
}

/// The servers the reality check asks: systemd-resolved's real nameservers
/// when resolv.conf names its stub and resolved reported some, resolv.conf's
/// nameservers otherwise.
pub open spec fn spec_reality_servers(resolv: ResolvModel, resolved: Seq<IpAddr>) -> Seq<IpAddr> {
    if resolv.is_systemd_stub && resolved.len() > 0 {
        resolved
    } else {
        resolv.nameservers
    }
}

/// The servers the reality check asks, given resolv.conf and the
/// nameservers systemd-resolved reported.
pub fn reality_servers(resolv: &ResolvConfig, resolved: &Vec<IpAddr>) -> (r: Vec<IpAddr>)
    ensures
        r@ == spec_reality_servers(resolv@, resolved@),
{
    if resolv.is_systemd_stub && resolved.len() != 0 {
        resolved.clone()
    } else {
        resolv.nameservers.clone()
    }
}

/// What the direct query's outcome makes of the reality check: addresses
/// (possibly none) or an authoritative "no such records" (no addresses) are
/// an answer to compare against; any failure means the check could not run,
/// so there is nothing to compare against.
pub open spec fn spec_reality_outcome(reply: DnsReplyModel) -> Option<Seq<IpAddr>> {
    match reply {
        DnsReplyModel::Answered(a) => Some(a),
        DnsReplyModel::NoRecords => Some(Seq::empty()),
        _ => None,
    }
}

/// The reality check that the direct query against `servers` gives, or
/// nothing when the query could not be made.
pub fn reality_outcome(servers: Vec<IpAddr>, reply: DnsReply) -> (r: Option<RealityCheck>)
    ensures
        match r {
            Some(c) => spec_reality_outcome(reply@) == Some(c.addresses@) && c.queried_servers@ == servers@,
            None => spec_reality_outcome(reply@) is None,
        },
{
    match reply {
        DnsReply::Answered(a) => Some(RealityCheck { queried_servers: servers, addresses: a }),
        DnsReply::NoRecords => Some(RealityCheck { queried_servers: servers, addresses: Vec::new() }),
        _ => None,
    }
}

} // verus!
