//! The nameservers that systemd-resolved reports on D-Bus, and which of them
//! an ordinary, unscoped query should use.

use crate::ip::{IpAddr, be_value, sorted_unique, strictly_sorted, v4_value};
use vstd::prelude::*;

verus! {

/// The `AF_INET` address family number.
pub const AF_INET: i32 = 2;

/// The `AF_INET6` address family number.
pub const AF_INET6: i32 = 10;

/// One nameserver of resolved's `Manager.DNS` property: the link it belongs
/// to (0 for the global scope) and its address.
#[derive(Debug, Clone, Copy, PartialEq, Eq, Structural)]
pub struct ResolvedNameserver {
    pub ifindex: i32,
    pub address: IpAddr,
}

/// The address that a `(family, bytes)` pair of the D-Bus property encodes:
/// 4 bytes of `AF_INET` or 16 bytes of `AF_INET6`, nothing otherwise.
pub open spec fn spec_decode_address(family: i32, bytes: Seq<u8>) -> Option<IpAddr> {
    if family == AF_INET && bytes.len() == 4 {
        Some(IpAddr::V4(v4_value(bytes[0], bytes[1], bytes[2], bytes[3]) as u32))
    } else if family == AF_INET6 && bytes.len() == 16 {
        Some(IpAddr::V6(be_value(bytes) as u128))
    } else {
        None
    }
}

/// The nameservers of the raw `(ifindex, family, bytes)` entries, in order,
/// leaving out every entry whose address does not decode.
pub open spec fn decoded_entries(raw: Seq<(i32, i32, Vec<u8>)>) -> Seq<ResolvedNameserver>
    decreases raw.len(),
{
    if raw.len() == 0 {
        Seq::empty()
    } else {
        let e = raw.last();
        let rest = decoded_entries(raw.drop_last());
        match spec_decode_address(e.1, e.2@) {
            Some(a) => rest.push(ResolvedNameserver { ifindex: e.0, address: a }),
            None => rest,
        }
    }
}

/// The addresses of a list of nameservers.
pub open spec fn addresses_of(entries: Seq<ResolvedNameserver>) -> Seq<IpAddr> {
    Seq::new(entries.len(), |i: int| entries[i].address)
}

/// The addresses of the global-scope (ifindex 0) nameservers, in order.
pub open spec fn global_scope(entries: Seq<ResolvedNameserver>) -> Seq<IpAddr>
    decreases entries.len(),
{
    if entries.len() == 0 {
        Seq::empty()
    } else {
        let rest = global_scope(entries.drop_last());
        if entries.last().ifindex == 0 {
            rest.push(entries.last().address)
        } else {
            rest
        }
    }
}

/// The pool an unscoped query draws from: the global-scope servers, or every
/// server when no global-scope server was reported.
pub open spec fn effective_pool(entries: Seq<ResolvedNameserver>) -> Seq<IpAddr> {
    if global_scope(entries).len() == 0 {
        addresses_of(entries)
    } else {
        global_scope(entries)
    }
}

proof fn lemma_global_scope(entries: Seq<ResolvedNameserver>, x: IpAddr)
    ensures
        global_scope(entries).contains(x) <==> exists|i: int|
            0 <= i < entries.len() && (#[trigger] entries[i]).ifindex == 0 && entries[i].address == x,
        (global_scope(entries).len() == 0) <==> forall|i: int|
            0 <= i < entries.len() ==> (#[trigger] entries[i]).ifindex != 0,
    decreases entries.len(),
{
    if entries.len() > 0 {
        let prev = entries.drop_last();
        lemma_global_scope(prev, x);
        let g = global_scope(prev);
        let last = entries.last();
        assert forall|i: int| 0 <= i < prev.len() implies prev[i] == entries[i] by {}
        if last.ifindex == 0 {
            assert(g.push(last.address)[g.len() as int] == last.address);
            assert(global_scope(entries).contains(x) ==> g.contains(x) || last.address == x) by {
                if global_scope(entries).contains(x) {
                    let k = choose|k: int| 0 <= k < g.push(last.address).len() && g.push(last.address)[k] == x;
                    if k < g.len() {
                        assert(g[k] == x);
                    }
                }
            }
            assert(g.contains(x) ==> global_scope(entries).contains(x)) by {
                if g.contains(x) {
                    let k = choose|k: int| 0 <= k < g.len() && g[k] == x;
                    assert(g.push(last.address)[k] == x);
                }
            }
            if global_scope(entries).contains(x) && !g.contains(x) {
                assert(entries[entries.len() - 1].ifindex == 0 && entries[entries.len() - 1].address == x);
            }
            assert(entries[entries.len() - 1].ifindex == 0);
        } else {
            if exists|i: int| 0 <= i < entries.len() && (#[trigger] entries[i]).ifindex == 0 && entries[i].address == x {
                let i = choose|i: int| 0 <= i < entries.len() && (#[trigger] entries[i]).ifindex == 0 && entries[i].address == x;
                assert(i < prev.len());
                assert(prev[i] == entries[i]);
            }
        }
    }
}

proof fn lemma_addresses_of(entries: Seq<ResolvedNameserver>, x: IpAddr)
    ensures
        addresses_of(entries).contains(x) <==> exists|i: int|
            0 <= i < entries.len() && (#[trigger] entries[i]).address == x,
{
    if addresses_of(entries).contains(x) {
        let k = choose|k: int| 0 <= k < addresses_of(entries).len() && addresses_of(entries)[k] == x;
        assert(entries[k].address == x);
    }
    if exists|i: int| 0 <= i < entries.len() && (#[trigger] entries[i]).address == x {
        let i = choose|i: int| 0 <= i < entries.len() && (#[trigger] entries[i]).address == x;
        assert(addresses_of(entries)[i] == x);
    }
}

/// While any global-scope nameserver is reported, an unscoped query uses
/// global-scope servers only; only when none is reported does it fall back
/// to the per-link ones.
pub proof fn global_scope_preferred(entries: Seq<ResolvedNameserver>, x: IpAddr)
    ensures
        (exists|i: int| 0 <= i < entries.len() && (#[trigger] entries[i]).ifindex == 0) ==> (effective_pool(
            entries,
        ).contains(x) <==> exists|i: int|
            0 <= i < entries.len() && (#[trigger] entries[i]).ifindex == 0 && entries[i].address == x),
        (forall|i: int| 0 <= i < entries.len() ==> (#[trigger] entries[i]).ifindex != 0) ==> (effective_pool(
            entries,
        ).contains(x) <==> exists|i: int| 0 <= i < entries.len() && (#[trigger] entries[i]).address == x),
{
    lemma_global_scope(entries, x);
    lemma_addresses_of(entries, x);
}

/// Decodes one `(family, bytes)` pair of the D-Bus property.
pub fn decode_address(family: i32, bytes: &[u8]) -> (r: Option<IpAddr>)
    ensures
        r == spec_decode_address(family, bytes@),
{
    if family == AF_INET && bytes.len() == 4 {
        Some(IpAddr::from_v4_octets(bytes[0], bytes[1], bytes[2], bytes[3]))
    } else if family == AF_INET6 && bytes.len() == 16 {
        Some(IpAddr::from_v6_octets(bytes))
    } else {
        None
    }
}

/// The nameservers of the raw entries of resolved's `Manager.DNS`
/// property, dropping the entries whose address does not decode.
pub fn decode_nameservers(raw: &Vec<(i32, i32, Vec<u8>)>) -> (r: Vec<ResolvedNameserver>)
    ensures
        r@ == decoded_entries(raw@),
{
    let mut out: Vec<ResolvedNameserver> = Vec::new();
    let mut i: usize = 0;
    while i < raw.len()
        invariant
            i <= raw@.len(),
            out@ == decoded_entries(raw@.take(i as int)),
        decreases raw@.len() - i,
    {
        let e = &raw[i];
        assert(raw@.take(i + 1).drop_last() =~= raw@.take(i as int));
        match decode_address(e.1, e.2.as_slice()) {
            Some(a) => {
                out.push(ResolvedNameserver { ifindex: e.0, address: a });
            },
            None => {},
        }
        i = i + 1;
    }
    assert(raw@.take(raw@.len() as int) =~= raw@);
    out
}

/// Every configured server's address, distinct and in the address order,
/// whatever link it belongs to.
pub fn flat_addresses(entries: &[ResolvedNameserver]) -> (r: Vec<IpAddr>)
    ensures
        strictly_sorted(r@),
        forall|x: IpAddr| r@.contains(x) <==> addresses_of(entries@).contains(x),
{
    let all = collect_addresses(entries);
    sorted_unique(&all)
}

/// The nameservers for an ordinary, unscoped name query: the global-scope
/// servers, or every server when there is no global-scope one, distinct
/// and in the address order. A link-scoped resolver (a VPN's split-DNS
/// server) is not asked about names outside its zone while a global one is
/// known.
pub fn effective_addresses(entries: &[ResolvedNameserver]) -> (r: Vec<IpAddr>)
    ensures
        strictly_sorted(r@),
        forall|x: IpAddr| r@.contains(x) <==> effective_pool(entries@).contains(x),
{
    let mut global: Vec<IpAddr> = Vec::new();
    let mut i: usize = 0;
    while i < entries.len()
        invariant
            i <= entries@.len(),
            global@ == global_scope(entries@.take(i as int)),
        decreases entries@.len() - i,
    {
        assert(entries@.take(i + 1).drop_last() =~= entries@.take(i as int));
        if entries[i].ifindex == 0 {
            global.push(entries[i].address);
        }
        i = i + 1;
    }
    assert(entries@.take(entries@.len() as int) =~= entries@);
    if global.len() == 0 {
        let all = collect_addresses(entries);
        sorted_unique(&all)
    } else {
        sorted_unique(&global)
    }
}

/// The addresses of `entries`, in order.
fn collect_addresses(entries: &[ResolvedNameserver]) -> (r: Vec<IpAddr>)
    ensures
        r@ == addresses_of(entries@),
{
    let mut out: Vec<IpAddr> = Vec::new();
    let mut i: usize = 0;
    while i < entries.len()
        invariant
            i <= entries@.len(),
            out@ == addresses_of(entries@.take(i as int)),
        decreases entries@.len() - i,
    {
        out.push(entries[i].address);
        assert(out@ =~= addresses_of(entries@.take(i + 1)));
        i = i + 1;
    }
    assert(entries@.take(entries@.len() as int) =~= entries@);
    out
}

} // verus!
