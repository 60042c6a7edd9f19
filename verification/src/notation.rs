//! The textual notation of IP addresses: dotted-quad IPv4 (decimal octets,
//! no leading zeros) and IPv6 (up to eight hexadecimal groups, one `::`
//! for a run of zero groups, and an IPv4 address in the last 32 bits),
//! read exactly as `std::net::IpAddr`'s `FromStr` reads it: left to right,
//! IPv4 tried first, the whole text consumed.

use crate::ip::IpAddr;
use vstd::prelude::*;

verus! {

/// The value of a digit in base 10 or 16 (either letter case).
pub open spec fn digit_of(c: char, radix: u32) -> Option<u32> {
    if '0' <= c && c <= '9' {
        Some((c as u32 - '0' as u32) as u32)
    } else if radix == 16 && 'a' <= c && c <= 'f' {
        Some((c as u32 - 'a' as u32 + 10) as u32)
    } else if radix == 16 && 'A' <= c && c <= 'F' {
        Some((c as u32 - 'A' as u32 + 10) as u32)
    } else {
        None
    }
}

/// The number of digits in a row from `pos`.
pub open spec fn run_len(s: Seq<char>, pos: int, radix: u32) -> nat
    decreases s.len() - pos,
{
    if 0 <= pos < s.len() && digit_of(s[pos], radix) is Some {
        1 + run_len(s, pos + 1, radix)
    } else {
        0
    }
}

/// The value of the `n` digits from `pos`.
pub open spec fn run_value(s: Seq<char>, pos: int, n: nat, radix: u32) -> nat
    decreases n,
{
    if n == 0 {
        0
    } else {
        run_value(s, pos, (n - 1) as nat, radix) * radix as nat + digit_of(s[pos + n - 1], radix).unwrap() as nat
    }
}

/// Reads a number at `pos`: at least one and at most `max_digits` digits
/// (more digits in a row make it fail), no leading zero unless allowed or
/// the number is a single `0`, and a value below `bound`. Gives the value
/// and the position after it.
pub open spec fn read_number(
    s: Seq<char>,
    pos: int,
    radix: u32,
    max_digits: nat,
    allow_zero_prefix: bool,
    bound: nat,
) -> Option<(nat, int)> {
    let n = run_len(s, pos, radix);
    if n == 0 || n > max_digits {
        None
    } else if !allow_zero_prefix && s[pos] == '0' && n > 1 {
        None
    } else if run_value(s, pos, n, radix) >= bound {
        None
    } else {
        Some((run_value(s, pos, n, radix), pos + n))
    }
}

/// `s` has the character `c` at `pos`.
pub open spec fn char_at(s: Seq<char>, pos: int, c: char) -> bool {
    0 <= pos < s.len() && s[pos] == c
}

/// An IPv4 octet at `pos`.
pub open spec fn read_octet(s: Seq<char>, pos: int) -> Option<(nat, int)> {
    read_number(s, pos, 10, 3, false, 256)
}

/// A `.` and then an octet at `pos`.
pub open spec fn read_dot_octet(s: Seq<char>, pos: int) -> Option<(nat, int)> {
    if char_at(s, pos, '.') {
        read_octet(s, pos + 1)
    } else {
        None
    }
}

/// A dotted-quad IPv4 address at `pos`: its 32-bit value and the position
/// after it.
pub open spec fn read_ipv4(s: Seq<char>, pos: int) -> Option<(nat, int)> {
    match read_octet(s, pos) {
        None => None,
        Some((a, p1)) => match read_dot_octet(s, p1) {
            None => None,
            Some((b, p2)) => match read_dot_octet(s, p2) {
                None => None,
                Some((c, p3)) => match read_dot_octet(s, p3) {
                    None => None,
                    Some((d, p4)) => Some((((a * 256 + b) * 256 + c) * 256 + d, p4)),
                },
            },
        },
    }
}

/// Reads the `:`-separated groups of an IPv6 address from `pos`, the
/// `i`-th group of at most `limit`, with `acc` read so far. Before the last
/// possible group an IPv4 address may stand for two groups, and ends the
/// read. Gives the groups, the position after them, and whether an IPv4
/// address ended them.
pub open spec fn read_groups(s: Seq<char>, pos: int, i: nat, limit: nat, acc: Seq<nat>) -> (
    Seq<nat>,
    int,
    bool,
)
    decreases limit - i,
{
    if i >= limit {
        (acc, pos, false)
    } else if i > 0 && !char_at(s, pos, ':') {
        (acc, pos, false)
    } else {
        let start = if i == 0 { pos } else { pos + 1 };
        if i + 1 < limit && read_ipv4(s, start) is Some {
            let (v, p) = read_ipv4(s, start).unwrap();
            (acc + seq![v / 0x1_0000, v % 0x1_0000], p, true)
        } else {
            match read_number(s, start, 16, 4, true, 0x1_0000) {
                Some((g, p)) => read_groups(s, p, i + 1, limit, acc.push(g)),
                None => (acc, pos, false),
            }
        }
    }
}

/// The value of 16-bit groups read most significant first.
pub open spec fn groups_value(gs: Seq<nat>) -> nat
    decreases gs.len(),
{
    if gs.len() == 0 {
        0
    } else {
        groups_value(gs.drop_last()) * 0x1_0000 + gs.last()
    }
}

/// An IPv6 address at `pos`: eight groups, or groups, `::`, and groups
/// standing for at most seven groups with zero groups between them.
pub open spec fn read_ipv6(s: Seq<char>, pos: int) -> Option<(nat, int)> {
    let (head, p1, head_v4) = read_groups(s, pos, 0, 8, Seq::empty());
    if head.len() == 8 {
        Some((groups_value(head), p1))
    } else if head_v4 {
        None
    } else if !(char_at(s, p1, ':') && char_at(s, p1 + 1, ':')) {
        None
    } else {
        let limit = (8 - (head.len() + 1)) as nat;
        let (tail, p2, _) = read_groups(s, p1 + 2, 0, limit, Seq::empty());
        Some(
            (
                groups_value(
                    head + Seq::new((8 - head.len() - tail.len()) as nat, |k: int| 0nat) + tail,
                ),
                p2,
            ),
        )
    }
}

/// The address a whole text denotes: IPv4 if an IPv4 address can be read
/// at its start, else IPv6, and only if the address takes the whole text.
pub open spec fn spec_parse_ip(s: Seq<char>) -> Option<IpAddr> {
    match read_ipv4(s, 0) {
        Some((v, p)) => if p == s.len() && v < 0x1_0000_0000 {
            Some(IpAddr::V4(v as u32))
        } else {
            None
        },
        None => match read_ipv6(s, 0) {
            Some((v, p)) => if p == s.len() && v < 0x1_0000_0000_0000_0000_0000_0000_0000_0000 {
                Some(IpAddr::V6(v as u128))
            } else {
                None
            },
            None => None,
        },
    }
}

/// Largest value of `n` digits in base 16 (0 for no digits).
spec fn max16(n: nat) -> nat {
    if n == 0 {
        0
    } else if n == 1 {
        15
    } else if n == 2 {
        255
    } else if n == 3 {
        4095
    } else if n == 4 {
        65535
    } else {
        1048575
    }
}

proof fn lemma_run_len_split(s: Seq<char>, pos: int, n: nat, radix: u32)
    requires
        0 <= pos,
        pos + n <= s.len(),
        forall|j: int| 0 <= j < n ==> digit_of(#[trigger] s[pos + j], radix) is Some,
    ensures
        run_len(s, pos, radix) == n + run_len(s, pos + n, radix),
    decreases n,
{
    if n > 0 {
        assert(digit_of(s[pos + 0], radix) is Some);
        assert forall|j: int| 0 <= j < n - 1 implies digit_of(#[trigger] s[(pos + 1) + j], radix) is Some by {
            assert(s[(pos + 1) + j] == s[pos + (j + 1)]);
        }
        lemma_run_len_split(s, pos + 1, (n - 1) as nat, radix);
    }
}

fn digit(c: char, radix: u32) -> (r: Option<u32>)
    ensures
        r == digit_of(c, radix),
{
    if '0' <= c && c <= '9' {
        Some(c as u32 - '0' as u32)
    } else if radix == 16 && 'a' <= c && c <= 'f' {
        Some(c as u32 - 'a' as u32 + 10)
    } else if radix == 16 && 'A' <= c && c <= 'F' {
        Some(c as u32 - 'A' as u32 + 10)
    } else {
        None
    }
}

proof fn lemma_digit_bound(c: char, radix: u32)
    requires
        radix == 10 || radix == 16,
        digit_of(c, radix) is Some,
    ensures
        digit_of(c, radix).unwrap() < radix,
{
}

/// Reads a number as [`read_number`] describes.
fn read_number_at(
    s: &[char],
    pos: usize,
    radix: u32,
    max_digits: usize,
    allow_zero_prefix: bool,
    bound: u32,
) -> (r: Option<(u32, usize)>)
    requires
        pos <= s@.len(),
        radix == 10 || radix == 16,
        1 <= max_digits <= 4,
    ensures
        r is None <==> read_number(s@, pos as int, radix, max_digits as nat, allow_zero_prefix, bound as nat) is None,
        r matches Some((v, p)) ==> {
            &&& read_number(s@, pos as int, radix, max_digits as nat, allow_zero_prefix, bound as nat) == Some((v as nat, p as int))
            &&& v < bound
            &&& pos < p <= s@.len()
        },
{
    let len = s.len();
    let mut n: usize = 0;
    let mut value: u32 = 0;
    let mut stopped = false;
    while !stopped && n <= max_digits
        invariant
            len == s@.len(),
            pos <= len,
            n <= max_digits + 1,
            max_digits <= 4,
            radix == 10 || radix == 16,
            pos + n <= len,
            forall|j: int| 0 <= j < n ==> digit_of(#[trigger] s@[pos + j], radix) is Some,
            value as nat == run_value(s@, pos as int, n as nat, radix),
            (value as nat) <= max16(n as nat),
            stopped ==> (pos + n == len || digit_of(s@[pos + n], radix) is None),
        decreases max_digits + 1 - n, if stopped { 0int } else { 1int },
    {
        if n == len - pos {
            stopped = true;
        } else {
            match digit(s[pos + n], radix) {
                Some(d) => {
                    proof {
                        lemma_digit_bound(s@[pos + n], radix);
                        assert(value * radix + d <= max16((n + 1) as nat)) by (nonlinear_arith)
                            requires
                                value <= max16(n as nat),
                                radix <= 16,
                                d < radix,
                                n <= 4,
                                max16(0) == 0, max16(1) == 15, max16(2) == 255, max16(3) == 4095,
                                max16(4) == 65535, max16(5) == 1048575,
                        ;
                    }
                    value = value * radix + d;
                    n = n + 1;
                },
                None => {
                    stopped = true;
                },
            }
        }
    }
    proof {
        if stopped {
            lemma_run_len_split(s@, pos as int, n as nat, radix);
            assert(run_len(s@, pos + n, radix) == 0);
        } else {
            lemma_run_len_split(s@, pos as int, n as nat, radix);
        }
    }
    if n == 0 || n > max_digits {
        None
    } else if !allow_zero_prefix && s[pos] == '0' && n > 1 {
        None
    } else if value >= bound {
        None
    } else {
        Some((value, pos + n))
    }
}

fn read_dot_octet_at(s: &[char], pos: usize) -> (r: Option<(u32, usize)>)
    requires
        pos <= s@.len(),
    ensures
        r is None <==> read_dot_octet(s@, pos as int) is None,
        r matches Some((v, p)) ==> {
            &&& read_dot_octet(s@, pos as int) == Some((v as nat, p as int))
            &&& v < 256
            &&& pos < p <= s@.len()
        },
{
    if pos < s.len() && s[pos] == '.' {
        read_number_at(s, pos + 1, 10, 3, false, 256)
    } else {
        None
    }
}

/// Reads an IPv4 address at `pos` as [`read_ipv4`] describes.
fn read_ipv4_at(s: &[char], pos: usize) -> (r: Option<(u32, usize)>)
    requires
        pos <= s@.len(),
    ensures
        r is None <==> read_ipv4(s@, pos as int) is None,
        r matches Some((v, p)) ==> {
            &&& read_ipv4(s@, pos as int) == Some((v as nat, p as int))
            &&& pos < p <= s@.len()
        },
{
    let (a, p1) = match read_number_at(s, pos, 10, 3, false, 256) {
        Some(x) => x,
        None => return None,
    };
    let (b, p2) = match read_dot_octet_at(s, p1) {
        Some(x) => x,
        None => return None,
    };
    let (c, p3) = match read_dot_octet_at(s, p2) {
        Some(x) => x,
        None => return None,
    };
    let (d, p4) = match read_dot_octet_at(s, p3) {
        Some(x) => x,
        None => return None,
    };
    assert(((a * 256 + b) * 256 + c) * 256 + d < 0x1_0000_0000) by (nonlinear_arith)
        requires
            a < 256,
            b < 256,
            c < 256,
            d < 256,
    ;
    Some((((a * 256 + b) * 256 + c) * 256 + d, p4))
}

spec fn nat_view(v: Seq<u32>) -> Seq<nat> {
    Seq::new(v.len(), |i: int| v[i] as nat)
}

proof fn lemma_read_groups_len(s: Seq<char>, pos: int, i: nat, limit: nat, acc: Seq<nat>)
    requires
        acc.len() == i,
        i <= limit,
    ensures
        read_groups(s, pos, i, limit, acc).0.len() <= limit,
        read_groups(s, pos, i, limit, acc).0.len() >= i,
        read_groups(s, pos, i, limit, acc).0.subrange(0, i as int) == acc,
    decreases limit - i,
{
    if i < limit && !(i > 0 && !char_at(s, pos, ':')) {
        let start = if i == 0 { pos } else { pos + 1 };
        if i + 1 < limit && read_ipv4(s, start) is Some {
            let (v, p) = read_ipv4(s, start).unwrap();
            assert((acc + seq![v / 0x1_0000, v % 0x1_0000]).subrange(0, i as int) =~= acc);
        } else {
            match read_number(s, start, 16, 4, true, 0x1_0000) {
                Some((g, p)) => {
                    lemma_read_groups_len(s, p, i + 1, limit, acc.push(g));
                    assert(read_groups(s, p, i + 1, limit, acc.push(g)).0.subrange(0, i as int)
                        =~= read_groups(s, p, i + 1, limit, acc.push(g)).0.subrange(0, (i + 1) as int).subrange(0, i as int));
                    assert(acc.push(g).subrange(0, i as int) =~= acc);
                },
                None => {
                    assert(acc.subrange(0, i as int) =~= acc);
                },
            }
        }
    } else {
        assert(acc.subrange(0, i as int) =~= acc);
    }
}

/// Reads IPv6 groups as [`read_groups`] describes, from the first group.
fn read_groups_at(s: &[char], pos: usize, limit: usize) -> (r: (Vec<u32>, usize, bool))
    requires
        pos <= s@.len(),
        limit <= 8,
    ensures
        ({
            let (g, p, v4) = read_groups(s@, pos as int, 0, limit as nat, Seq::empty());
            &&& nat_view(r.0@) == g
            &&& r.1 as int == p
            &&& r.2 == v4
        }),
        r.0@.len() <= limit,
        r.1 <= s@.len(),
        forall|k: int| 0 <= k < r.0@.len() ==> r.0@[k] < 0x1_0000,
{
    let mut acc: Vec<u32> = Vec::new();
    let mut p = pos;
    let mut i: usize = 0;
    assert(nat_view(acc@) =~= Seq::<nat>::empty());
    loop
        invariant
            p <= s@.len(),
            i <= limit <= 8,
            acc@.len() == i,
            forall|k: int| 0 <= k < acc@.len() ==> acc@[k] < 0x1_0000,
            read_groups(s@, pos as int, 0, limit as nat, Seq::empty())
                == read_groups(s@, p as int, i as nat, limit as nat, nat_view(acc@)),
        decreases limit - i,
    {
        let ghost av = nat_view(acc@);
        if i >= limit {
            return (acc, p, false);
        }
        if i > 0 && !(p < s.len() && s[p] == ':') {
            return (acc, p, false);
        }
        let start = if i == 0 { p } else { p + 1 };
        if i + 1 < limit {
            match read_ipv4_at(s, start) {
                Some((v, q)) => {
                    acc.push(v / 0x1_0000);
                    acc.push(v % 0x1_0000);
                    assert(nat_view(acc@) =~= av + seq![v as nat / 0x1_0000, v as nat % 0x1_0000]);
                    return (acc, q, true);
                },
                None => {},
            }
        }
        match read_number_at(s, start, 16, 4, true, 0x1_0000) {
            Some((g, q)) => {
                acc.push(g);
                assert(nat_view(acc@) =~= av.push(g as nat));
                p = q;
                i = i + 1;
            },
            None => {
                return (acc, p, false);
            },
        }
    }
}

proof fn lemma_groups_value_bound(gs: Seq<nat>)
    requires
        forall|k: int| 0 <= k < gs.len() ==> gs[k] < 0x1_0000,
    ensures
        groups_value(gs) < pow65536(gs.len()),
    decreases gs.len(),
{
    if gs.len() > 0 {
        lemma_groups_value_bound(gs.drop_last());
        let a = groups_value(gs.drop_last());
        let b = pow65536((gs.len() - 1) as nat);
        assert(a * 0x1_0000 + gs.last() < b * 0x1_0000) by (nonlinear_arith)
            requires
                a < b,
                gs.last() < 0x1_0000,
        ;
    }
}

spec fn pow65536(n: nat) -> nat
    decreases n,
{
    if n == 0 {
        1
    } else {
        pow65536((n - 1) as nat) * 0x1_0000
    }
}

/// The value of eight 16-bit groups.
fn value_of_groups(gs: &Vec<u32>) -> (r: u128)
    requires
        gs@.len() == 8,
        forall|k: int| 0 <= k < 8 ==> gs@[k] < 0x1_0000,
    ensures
        r as nat == groups_value(nat_view(gs@)),
        groups_value(nat_view(gs@)) < 0x1_0000_0000_0000_0000_0000_0000_0000_0000,
{
    let mut acc: u128 = 0;
    let mut k: usize = 0;
    while k < 8
        invariant
            k <= 8,
            gs@.len() == 8,
            forall|j: int| 0 <= j < 8 ==> gs@[j] < 0x1_0000,
            acc as nat == groups_value(nat_view(gs@).take(k as int)),
            (acc as nat) < pow65536(k as nat),
        decreases 8 - k,
    {
        assert(nat_view(gs@).take(k + 1).drop_last() =~= nat_view(gs@).take(k as int));
        proof {
            reveal_with_fuel(pow65536, 9);
            assert(pow65536((k + 1) as nat) <= 0x1_0000_0000_0000_0000_0000_0000_0000_0000) by {
                reveal_with_fuel(pow65536, 9);
            }
            assert(acc * 0x1_0000 + gs@[k as int] < pow65536((k + 1) as nat)) by (nonlinear_arith)
                requires
                    acc < pow65536(k as nat),
                    gs@[k as int] < 0x1_0000,
                    pow65536((k + 1) as nat) == pow65536(k as nat) * 0x1_0000,
            ;
        }
        acc = acc * 0x1_0000 + gs[k] as u128;
        k = k + 1;
    }
    assert(nat_view(gs@).take(8) =~= nat_view(gs@));
    proof {
        reveal_with_fuel(pow65536, 9);
    }
    acc
}

/// Reads an IPv6 address at `pos` as [`read_ipv6`] describes.
fn read_ipv6_at(s: &[char], pos: usize) -> (r: Option<(u128, usize)>)
    requires
        pos <= s@.len(),
    ensures
        r is None <==> read_ipv6(s@, pos as int) is None,
        r matches Some((v, p)) ==> {
            &&& read_ipv6(s@, pos as int) == Some((v as nat, p as int))
            &&& p <= s@.len()
        },
{
    let (head, p1, head_v4) = read_groups_at(s, pos, 8);
    proof {
        lemma_read_groups_len(s@, pos as int, 0, 8, Seq::empty());
    }
    if head.len() == 8 {
        return Some((value_of_groups(&head), p1));
    }
    if head_v4 {
        return None;
    }
    if !(p1 < s.len() && s[p1] == ':' && p1 + 1 < s.len() && s[p1 + 1] == ':') {
        return None;
    }
    let limit = 8 - (head.len() + 1);
    let (tail, p2, _) = read_groups_at(s, p1 + 2, limit);
    let mut full: Vec<u32> = Vec::new();
    let mut k: usize = 0;
    while k < head.len()
        invariant
            k <= head@.len(),
            full@ == head@.take(k as int),
        decreases head@.len() - k,
    {
        full.push(head[k]);
        assert(head@.take(k as int).push(head@[k as int]) =~= head@.take(k + 1));
        k = k + 1;
    }
    let zeros = 8 - head.len() - tail.len();
    let mut z: usize = 0;
    while z < zeros
        invariant
            z <= zeros,
            full@ == head@ + Seq::new(z as nat, |j: int| 0u32),
        decreases zeros - z,
    {
        full.push(0);
        assert(head@ + Seq::new(z as nat, |j: int| 0u32) + seq![0u32] =~= head@ + Seq::new((z + 1) as nat, |j: int| 0u32));
        z = z + 1;
    }
    let mut t: usize = 0;
    while t < tail.len()
        invariant
            t <= tail@.len(),
            full@ == head@ + Seq::new(zeros as nat, |j: int| 0u32) + tail@.take(t as int),
        decreases tail@.len() - t,
    {
        full.push(tail[t]);
        assert(head@ + Seq::new(zeros as nat, |j: int| 0u32) + tail@.take(t as int) + seq![tail@[t as int]]
            =~= head@ + Seq::new(zeros as nat, |j: int| 0u32) + tail@.take(t + 1));
        t = t + 1;
    }
    proof {
        assert(tail@.take(tail@.len() as int) =~= tail@);
        assert(nat_view(full@) =~= nat_view(head@) + Seq::new(zeros as nat, |k: int| 0nat) + nat_view(tail@));
        assert forall|j: int| 0 <= j < 8 implies full@[j] < 0x1_0000 by {
            if j < head@.len() {
            } else if j < head@.len() + zeros {
            } else {
                assert(full@[j] == tail@[j - head@.len() - zeros]);
            }
        }
    }
    Some((value_of_groups(&full), p2))
}

/// The address that the characters `cs` denote, as [`spec_parse_ip`]
/// describes.
pub fn parse_ip_chars(cs: &[char]) -> (r: Option<IpAddr>)
    ensures
        r == spec_parse_ip(cs@),
{
    match read_ipv4_at(cs, 0) {
        Some((v, p)) => {
            if p == cs.len() {
                Some(IpAddr::V4(v))
            } else {
                None
            }
        },
        None => match read_ipv6_at(cs, 0) {
            Some((v, p)) => {
                if p == cs.len() {
                    Some(IpAddr::V6(v))
                } else {
                    None
                }
            },
            None => None,
        },
    }
}

/// The address that `text` denotes, as [`spec_parse_ip`] describes.
pub fn parse_ip(text: &str) -> (r: Option<IpAddr>)
    ensures
        r == spec_parse_ip(text@),
{
    let cs = crate::text::chars_of(text);
    parse_ip_chars(&cs)
}

} // verus!
