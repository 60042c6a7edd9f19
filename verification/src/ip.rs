//! IP addresses as plain integers, their order, and set-like operations on
//! lists of them.

use vstd::prelude::*;
use vstd::relations::*;

verus! {

/// An IPv4 or IPv6 address. An IPv4 address is held as the big-endian
/// value of its four octets, an IPv6 address as the big-endian value of its
/// sixteen octets.
#[derive(Debug, Clone, Copy, PartialEq, Eq, Hash, Structural)]
pub enum IpAddr {
    V4(u32),
    V6(u128),
}

/// The position of an address in the usual address order: every IPv4
/// address comes before every IPv6 address, and within a family addresses
/// are ordered by value.
pub open spec fn addr_key(a: IpAddr) -> int {
    match a {
        IpAddr::V4(x) => x as int,
        IpAddr::V6(y) => 0x1_0000_0000int + y as int,
    }
}

/// `a` is at or before `b` in the address order.
pub open spec fn addr_le(a: IpAddr, b: IpAddr) -> bool {
    addr_key(a) <= addr_key(b)
}

/// The value of four octets read big-endian.
pub open spec fn v4_value(a: u8, b: u8, c: u8, d: u8) -> int {
    a as int * 0x100_0000 + b as int * 0x1_0000 + c as int * 0x100 + d as int
}

/// The value of a byte sequence read big-endian.
pub open spec fn be_value(bytes: Seq<u8>) -> nat
    decreases bytes.len(),
{
    if bytes.len() == 0 {
        0
    } else {
        be_value(bytes.drop_last()) * 256 + bytes.last() as nat
    }
}

/// A sequence in the address order (repeats allowed).
pub open spec fn addr_sorted(s: Seq<IpAddr>) -> bool {
    forall|i: int, j: int| 0 <= i < j < s.len() ==> addr_key(#[trigger] s[i]) <= addr_key(#[trigger] s[j])
}

/// A sequence whose keys strictly increase: sorted, without repeats.
pub open spec fn strictly_sorted(s: Seq<IpAddr>) -> bool {
    forall|i: int, j: int| 0 <= i < j < s.len() ==> addr_key(#[trigger] s[i]) < addr_key(#[trigger] s[j])
}

pub proof fn lemma_addr_key_injective(a: IpAddr, b: IpAddr)
    ensures
        addr_key(a) == addr_key(b) ==> a == b,
{
}

pub proof fn lemma_addr_le_total()
    ensures
        total_ordering(|a: IpAddr, b: IpAddr| addr_le(a, b)),
{
    assert forall|a: IpAddr, b: IpAddr|
        #[trigger] addr_le(a, b) && #[trigger] addr_le(b, a) implies a == b by {
        lemma_addr_key_injective(a, b);
    }
}

impl IpAddr {
    /// The IPv4 address with the four octets `a.b.c.d`.
    pub fn from_v4_octets(a: u8, b: u8, c: u8, d: u8) -> (r: IpAddr)
        ensures
            r == IpAddr::V4(v4_value(a, b, c, d) as u32),
            v4_value(a, b, c, d) < 0x1_0000_0000,
    {
        let v: u32 = (a as u32) * 0x100_0000 + (b as u32) * 0x1_0000 + (c as u32) * 0x100 + (d as u32);
        IpAddr::V4(v)
    }

    /// The IPv6 address whose sixteen octets are `bytes`, in network order.
    pub fn from_v6_octets(bytes: &[u8]) -> (r: IpAddr)
        requires
            bytes@.len() == 16,
        ensures
            r == IpAddr::V6(be_value(bytes@) as u128),
            be_value(bytes@) < 0x1_0000_0000_0000_0000_0000_0000_0000_0000,
    {
        let mut acc: u128 = 0;
        let mut i: usize = 0;
        while i < 16
            invariant
                i <= 16,
                bytes@.len() == 16,
                acc as nat == be_value(bytes@.subrange(0, i as int)),
                (acc as nat) < pow256(i as nat),
            decreases 16 - i,
        {
            assert(bytes@.subrange(0, i + 1).drop_last() =~= bytes@.subrange(0, i as int));
            proof {
                lemma_pow256_step(i as nat);
                assert(acc * 256 + bytes@[i as int] < pow256((i + 1) as nat)) by (nonlinear_arith)
                    requires
                        acc < pow256(i as nat),
                        bytes@[i as int] < 256,
                        pow256((i + 1) as nat) == pow256(i as nat) * 256,
                ;
                lemma_pow256_le(i as nat + 1, 16);
                lemma_pow256_16();
            }
            acc = acc * 256 + bytes[i] as u128;
            i = i + 1;
        }
        assert(bytes@.subrange(0, 16) =~= bytes@);
        proof {
            lemma_pow256_16();
        }
        IpAddr::V6(acc)
    }

    /// Whether `self` is at or before `other` in the address order.
    pub fn le(&self, other: &IpAddr) -> (r: bool)
        ensures
            r == addr_le(*self, *other),
    {
        match (self, other) {
            (IpAddr::V4(a), IpAddr::V4(b)) => *a <= *b,
            (IpAddr::V4(_), IpAddr::V6(_)) => true,
            (IpAddr::V6(_), IpAddr::V4(_)) => false,
            (IpAddr::V6(a), IpAddr::V6(b)) => *a <= *b,
        }
    }
}

pub open spec fn pow256(n: nat) -> nat
    decreases n,
{
    if n == 0 {
        1
    } else {
        256 * pow256((n - 1) as nat)
    }
}

proof fn lemma_pow256_step(n: nat)
    ensures
        pow256(n + 1) == pow256(n) * 256,
{
}

proof fn lemma_pow256_le(a: nat, b: nat)
    requires
        a <= b,
    ensures
        pow256(a) <= pow256(b),
    decreases b,
{
    if a < b {
        lemma_pow256_le(a, (b - 1) as nat);
    }
}

proof fn lemma_pow256_16()
    ensures
        pow256(16) == 0x1_0000_0000_0000_0000_0000_0000_0000_0000,
{
    reveal_with_fuel(pow256, 17);
}

/// Sorts addresses into the address order, keeping every occurrence.
pub fn sort_addresses(v: &Vec<IpAddr>) -> (r: Vec<IpAddr>)
    ensures
        addr_sorted(r@),
        r@.to_multiset() =~= v@.to_multiset(),
{
    broadcast use vstd::seq_lib::group_to_multiset_ensures;
    let mut out: Vec<IpAddr> = Vec::new();
    let mut i: usize = 0;
    while i < v.len()
        invariant
            i <= v@.len(),
            addr_sorted(out@),
            out@.to_multiset() =~= v@.subrange(0, i as int).to_multiset(),
        decreases v@.len() - i,
    {
        let x = v[i];
        let mut k: usize = 0;
        while k < out.len() && out[k].le(&x)
            invariant
                k <= out@.len(),
                forall|j: int| 0 <= j < k ==> addr_le(#[trigger] out@[j], x),
            decreases out@.len() - k,
        {
            k = k + 1;
        }
        let ghost before = out@;
        out.insert(k, x);
        proof {
            before.insert_ensures(k as int, x);
            assert(out@.remove(k as int) =~= before);
            assert(out@[k as int] == x);
            out@.to_multiset_ensures();
            before.to_multiset_ensures();
            assert(out@.remove(k as int).to_multiset() =~= out@.to_multiset().remove(x));
            assert(out@.to_multiset().remove(x) =~= before.to_multiset());
            assert(out@.contains(x));
            assert(out@.to_multiset().count(x) > 0);
            assert(out@.to_multiset() =~= before.to_multiset().insert(x));
            assert(v@.subrange(0, i + 1) =~= v@.subrange(0, i as int).push(x));
            v@.subrange(0, i as int).to_multiset_ensures();
            assert(v@.subrange(0, i + 1).to_multiset() =~= v@.subrange(0, i as int).to_multiset().insert(x));
            assert forall|a: int, b: int| 0 <= a < b < out@.len() implies
                addr_key(#[trigger] out@[a]) <= addr_key(#[trigger] out@[b]) by {
                if b < k {
                    assert(out@[a] == before[a] && out@[b] == before[b]);
                } else if b == k {
                    assert(out@[a] == before[a]);
                } else if a < k {
                    assert(out@[a] == before[a] && out@[b] == before[b - 1]);
                    assert(addr_key(before[a]) <= addr_key(before[b - 1]));
                } else if a == k {
                    assert(!addr_le(before[k as int], x));
                    assert(out@[b] == before[b - 1]);
                    if b - 1 > k {
                        assert(addr_key(before[k as int]) <= addr_key(before[b - 1]));
                    }
                } else {
                    assert(out@[a] == before[a - 1] && out@[b] == before[b - 1]);
                    assert(addr_key(before[a - 1]) <= addr_key(before[b - 1]));
                }
            }
        }
        i = i + 1;
    }
    assert(v@.subrange(0, v@.len() as int) =~= v@);
    out
}

/// Keeps the first of each run of equal addresses in a sorted list.
fn dedup_sorted(v: &Vec<IpAddr>) -> (r: Vec<IpAddr>)
    requires
        addr_sorted(v@),
    ensures
        strictly_sorted(r@),
        forall|x: IpAddr| r@.contains(x) <==> v@.contains(x),
{
    let mut out: Vec<IpAddr> = Vec::new();
    let mut i: usize = 0;
    while i < v.len()
        invariant
            i <= v@.len(),
            addr_sorted(v@),
            strictly_sorted(out@),
            forall|x: IpAddr| out@.contains(x) <==> v@.subrange(0, i as int).contains(x),
            out@.len() > 0 ==> out@.last() == v@[i - 1],
            (out@.len() == 0) == (i == 0),
        decreases v@.len() - i,
    {
        let x = v[i];
        let ghost before = out@;
        if out.len() == 0 || out[out.len() - 1] != x {
            proof {
                if out@.len() > 0 {
                    assert(i > 0);
                    assert(i < v@.len());
                    assert(addr_key(v@[i - 1]) <= addr_key(v@[i as int]));
                    lemma_addr_key_injective(v@[i - 1], x);
                }
            }
            out.push(x);
            proof {
                assert forall|a: int, b: int| 0 <= a < b < out@.len() implies
                    addr_key(#[trigger] out@[a]) < addr_key(#[trigger] out@[b]) by {
                    if b == out@.len() - 1 && a < b - 1 {
                        assert(addr_key(before[a]) < addr_key(before.last()));
                    }
                }
            }
        }
        proof {
            let next = v@.subrange(0, i + 1);
            assert(next =~= v@.subrange(0, i as int).push(x));
            assert forall|y: IpAddr| out@.contains(y) <==> next.contains(y) by {
                if next.contains(y) {
                    let j = choose|j: int| 0 <= j < next.len() && next[j] == y;
                    if j < i {
                        assert(v@.subrange(0, i as int).contains(y)) by {
                            assert(v@.subrange(0, i as int)[j] == y);
                        }
                        assert(before.contains(y));
                        let m = choose|m: int| 0 <= m < before.len() && before[m] == y;
                        assert(out@[m] == y);
                    } else {
                        assert(out@.last() == x);
                        assert(out@[out@.len() - 1] == y);
                    }
                }
                if out@.contains(y) {
                    let m = choose|m: int| 0 <= m < out@.len() && out@[m] == y;
                    if m < before.len() {
                        assert(before[m] == y);
                        assert(before.contains(y));
                        assert(v@.subrange(0, i as int).contains(y));
                        let j = choose|j: int| 0 <= j < i && v@.subrange(0, i as int)[j] == y;
                        assert(next[j] == y);
                    } else {
                        assert(next[i as int] == y);
                    }
                }
            }
        }
        i = i + 1;
    }
    assert(v@.subrange(0, v@.len() as int) =~= v@);
    out
}

/// The distinct addresses of `v`, in the address order.
pub fn sorted_unique(v: &Vec<IpAddr>) -> (r: Vec<IpAddr>)
    ensures
        strictly_sorted(r@),
        forall|x: IpAddr| r@.contains(x) <==> v@.contains(x),
{
    let sorted = sort_addresses(v);
    proof {
        assert forall|x: IpAddr| sorted@.contains(x) <==> v@.contains(x) by {
            sorted@.to_multiset_ensures();
            v@.to_multiset_ensures();
            assert(sorted@.to_multiset().count(x) == v@.to_multiset().count(x));
        }
    }
    dedup_sorted(&sorted)
}

/// Whether two address lists hold the same addresses the same number of
/// times, whatever their order.
pub fn same_address_set(a: &Vec<IpAddr>, b: &Vec<IpAddr>) -> (r: bool)
    ensures
        r == (a@.to_multiset() == b@.to_multiset()),
{
    let sa = sort_addresses(a);
    let sb = sort_addresses(b);
    let mut equal = sa.len() == sb.len();
    if equal {
        let mut i: usize = 0;
        while i < sa.len()
            invariant_except_break
                equal,
            invariant
                sa@.len() == sb@.len(),
                i <= sa@.len(),
                forall|j: int| 0 <= j < i ==> sa@[j] == sb@[j],
            ensures
                equal ==> sa@ =~= sb@,
                !equal ==> sa@ != sb@,
            decreases sa@.len() - i,
        {
            if sa[i] != sb[i] {
                assert(sa@[i as int] != sb@[i as int]);
                equal = false;
                break;
            }
            i = i + 1;
        }
    }
    proof {
        if !equal && a@.to_multiset() == b@.to_multiset() {
            lemma_addr_le_total();
            assert(sorted_by(sa@, |x: IpAddr, y: IpAddr| addr_le(x, y)));
            assert(sorted_by(sb@, |x: IpAddr, y: IpAddr| addr_le(x, y)));
            vstd::seq_lib::lemma_sorted_unique(sa@, sb@, |x: IpAddr, y: IpAddr| addr_le(x, y));
        }
    }
    equal
}

} // verus!
