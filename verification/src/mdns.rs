//! The DNS wire format pieces that a one-shot mDNS probe needs: the query
//! packet, and reading the A/AAAA answers out of a response.

use crate::ip::{be_value, sorted_unique, strictly_sorted, v4_value, IpAddr};
use crate::text::{chars_of, find_char, find_from, push_char, push_chars};
use vstd::prelude::*;
use vstd::utf8::{decode_utf8, encode_utf8, valid_utf8};

verus! {

/// The mDNS multicast group, 224.0.0.251, as its 32-bit value.
pub const MDNS_GROUP: u32 = 0xE000_00FB;

/// The mDNS port.
pub const MDNS_PORT: u16 = 5353;

/// Record type A (an IPv4 address).
pub const QTYPE_A: u16 = 1;

/// Record type AAAA (an IPv6 address).
pub const QTYPE_AAAA: u16 = 28;

/// `s` split at every `c`, as `str::split` gives it (so a text without `c`
/// is one piece, and a trailing `c` gives an empty last piece).
pub open spec fn split_on(s: Seq<char>, c: char) -> Seq<Seq<char>>
    decreases s.len(),
{
    let k = find_char(s, c);
    if k >= s.len() {
        seq![s]
    } else {
        seq![s.take(k as int)] + split_on(s.skip((k + 1) as int), c)
    }
}

/// The question-name bytes for `labels`: each non-empty label as its
/// UTF-8 length (as one byte) followed by its UTF-8 bytes.
pub open spec fn label_bytes(labels: Seq<Seq<char>>) -> Seq<u8>
    decreases labels.len(),
{
    if labels.len() == 0 {
        Seq::empty()
    } else if labels[0].len() == 0 {
        label_bytes(labels.drop_first())
    } else {
        seq![encode_utf8(labels[0]).len() as u8] + encode_utf8(labels[0]) + label_bytes(labels.drop_first())
    }
}

/// The query packet for `name` and `qtype`: a 12-byte header (ID 0, flags
/// 0, one question), the name's labels, the root label, QTYPE and QCLASS IN,
/// numbers big-endian.
pub open spec fn spec_build_query(name: Seq<char>, qtype: u16) -> Seq<u8> {
    seq![0u8, 0, 0, 0, 0, 1, 0, 0, 0, 0, 0, 0] + label_bytes(split_on(name, '.')) + seq![
        0u8,
        (qtype / 256) as u8,
        (qtype % 256) as u8,
        0,
        1,
    ]
}

proof fn lemma_find_char_le(s: Seq<char>, c: char)
    ensures
        find_char(s, c) <= s.len(),
    decreases s.len(),
{
    if s.len() > 0 && s[0] != c {
        lemma_find_char_le(s.drop_first(), c);
    }
}

/// Builds a minimal DNS query packet for `name` with the given QTYPE (A=1
/// or AAAA=28), QCLASS=IN(1); mDNS runs it over multicast UDP on port
/// 5353. Empty labels (from a trailing dot) are skipped.
pub fn build_query(name: &str, qtype: u16) -> (packet: Vec<u8>)
    ensures
        packet@ == spec_build_query(name@, qtype),
{
    let mut packet: Vec<u8> = Vec::new();
    packet.push(0);
    packet.push(0);
    packet.push(0);
    packet.push(0);
    packet.push(0);
    packet.push(1);
    packet.push(0);
    packet.push(0);
    packet.push(0);
    packet.push(0);
    packet.push(0);
    packet.push(0);
    let ghost header = packet@;
    assert(header =~= seq![0u8, 0, 0, 0, 0, 1, 0, 0, 0, 0, 0, 0]);
    let cs = chars_of(name);
    let mut i: usize = 0;
    assert(cs@.skip(0) =~= cs@);
    assert(header + label_bytes(split_on(cs@, '.')) =~= packet@ + label_bytes(split_on(cs@.skip(0), '.')));
    loop
        invariant_except_break
            header + label_bytes(split_on(name@, '.')) == packet@ + label_bytes(split_on(cs@.skip(i as int), '.')),
        invariant
            i <= cs@.len(),
            cs@ == name@,
        ensures
            header + label_bytes(split_on(name@, '.')) == packet@,
        decreases cs@.len() - i,
    {
        let k = find_from(&cs, i, '.');
        let ghost rest = cs@.skip(i as int);
        let label = name.substring_char(i, k);
        let bytes = label.as_bytes();
        let ghost before = packet@;
        proof {
            assert(label@ == rest.take(k - i));
            lemma_find_char_le(rest, '.');
        }
        if k > i {
            packet.push(bytes.len() as u8);
            let mut j: usize = 0;
            while j < bytes.len()
                invariant
                    j <= bytes@.len(),
                    packet@ == before + seq![bytes@.len() as u8] + bytes@.take(j as int),
                decreases bytes@.len() - j,
            {
                packet.push(bytes[j]);
                assert(bytes@.take(j as int).push(bytes@[j as int]) =~= bytes@.take(j + 1));
                j = j + 1;
            }
            assert(bytes@.take(bytes@.len() as int) =~= bytes@);
        }
        if k == cs.len() {
            proof {
                assert(split_on(rest, '.') == seq![rest]);
                assert(label_bytes(seq![rest].drop_first()) == Seq::<u8>::empty());
                assert(rest.take(k - i) =~= rest);
                if k > i {
                    assert(packet@ =~= before + label_bytes(seq![rest]));
                } else {
                    assert(rest.len() == 0);
                    assert(packet@ =~= before + label_bytes(seq![rest]));
                }
            }
            break;
        }
        proof {
            assert(rest.skip(k - i + 1) =~= cs@.skip(k + 1));
            let pieces = split_on(rest, '.');
            assert(pieces == seq![rest.take(k - i)] + split_on(cs@.skip(k + 1), '.'));
            assert(pieces.drop_first() =~= split_on(cs@.skip(k + 1), '.'));
            assert(pieces[0] == rest.take(k - i));
            if k > i {
                assert(packet@ + label_bytes(split_on(cs@.skip(k + 1), '.')) =~= before + label_bytes(pieces));
            } else {
                assert(packet@ + label_bytes(split_on(cs@.skip(k + 1), '.')) =~= before + label_bytes(pieces));
            }
        }
        i = k + 1;
    }
    let ghost before = packet@;
    packet.push(0);
    packet.push((qtype / 256) as u8);
    packet.push((qtype % 256) as u8);
    packet.push(0);
    packet.push(1);
    assert(packet@ =~= before + seq![0u8, (qtype / 256) as u8, (qtype % 256) as u8, 0, 1]);
    packet
}

/// Where a (possibly compressed) name that starts at `pos` ends: a zero
/// byte ends it; a byte with its two top bits set (at least 0xC0) is a
/// two-byte compression pointer that ends it; any other byte is a label
/// length, and the label must not run to or past the end of the data.
pub open spec fn spec_skip_name(data: Seq<u8>, pos: int) -> Option<int>
    decreases data.len() - pos,
{
    if pos < 0 || pos >= data.len() {
        None
    } else {
        let len = data[pos];
        if len == 0 {
            Some(pos + 1)
        } else if len >= 0xC0 {
            Some(pos + 2)
        } else if pos + 1 + len >= data.len() {
            None
        } else {
            spec_skip_name(data, pos + 1 + len)
        }
    }
}

/// Advances past a (possibly compressed) DNS name and returns the new
/// offset, without decoding it; a compression pointer is not followed.
pub fn skip_name(data: &[u8], pos: usize) -> (r: Option<usize>)
    requires
        data@.len() <= isize::MAX,
    ensures
        r is None <==> spec_skip_name(data@, pos as int) is None,
        r matches Some(p) ==> spec_skip_name(data@, pos as int) == Some(p as int),
{
    let mut p = pos;
    loop
        invariant
            data@.len() <= isize::MAX,
            spec_skip_name(data@, pos as int) == spec_skip_name(data@, p as int),
        decreases data@.len() - p,
    {
        if p >= data.len() {
            return None;
        }
        let len = data[p] as usize;
        if len == 0 {
            return Some(p + 1);
        }
        if len >= 0xC0 {
            return Some(p + 2);
        }
        if len >= data.len() - p - 1 {
            return None;
        }
        p = p + 1 + len;
    }
}

/// The labels of a (possibly compressed) name that starts at `pos`, as
/// raw bytes, following compression pointers (whose target is the low six
/// bits of the first byte and the second byte, big-endian); a pointer met
/// after `hops` (at least one) pointers were already followed fails.
pub open spec fn name_labels(data: Seq<u8>, pos: int, hops: nat) -> Option<Seq<Seq<u8>>>
    decreases 1 - hops, data.len() - pos,
{
    if pos < 0 || pos >= data.len() {
        None
    } else {
        let len = data[pos];
        if len == 0 {
            Some(Seq::empty())
        } else if len >= 0xC0 {
            if hops >= 1 || pos + 1 >= data.len() {
                None
            } else {
                name_labels(data, (len - 0xC0) * 256 + data[pos + 1], hops + 1)
            }
        } else if pos + 1 + len > data.len() {
            None
        } else {
            match name_labels(data, pos + 1 + len, hops) {
                None => None,
                Some(rest) => Some(seq![data.subrange(pos + 1, pos + 1 + len)] + rest),
            }
        }
    }
}

/// Every label is valid UTF-8.
pub open spec fn all_valid_utf8(labels: Seq<Seq<u8>>) -> bool {
    forall|i: int| 0 <= i < labels.len() ==> valid_utf8(#[trigger] labels[i])
}

/// The texts joined with `.` between them.
pub open spec fn join_dot(parts: Seq<Seq<char>>) -> Seq<char>
    decreases parts.len(),
{
    if parts.len() == 0 {
        Seq::empty()
    } else if parts.len() == 1 {
        parts[0]
    } else {
        parts[0] + seq!['.'] + join_dot(parts.drop_first())
    }
}

/// The dotted name that starts at `pos`, if its structure is sound and
/// every label is UTF-8.
pub open spec fn spec_decode_name(data: Seq<u8>, pos: int) -> Option<Seq<char>> {
    match name_labels(data, pos, 0) {
        None => None,
        Some(ls) => if all_valid_utf8(ls) {
            Some(join_dot(Seq::new(ls.len(), |i: int| decode_utf8(ls[i]))))
        } else {
            None
        },
    }
}

proof fn lemma_join_dot_push(s: Seq<Seq<char>>, x: Seq<char>)
    ensures
        join_dot(s.push(x)) == if s.len() == 0 {
            x
        } else {
            join_dot(s) + seq!['.'] + x
        },
    decreases s.len(),
{
    if s.len() == 0 {
        assert(s.push(x) =~= seq![x]);
    } else if s.len() == 1 {
        assert(s.push(x).drop_first() =~= seq![x]);
        assert(join_dot(seq![x]) == x);
        assert(join_dot(s) == s[0]);
    } else {
        lemma_join_dot_push(s.drop_first(), x);
        assert(s.push(x).drop_first() =~= s.drop_first().push(x));
        assert(s.push(x)[0] == s[0]);
        assert(join_dot(s.push(x)) == s[0] + seq!['.'] + join_dot(s.drop_first().push(x)));
        assert(join_dot(s) == s[0] + seq!['.'] + join_dot(s.drop_first()));
        assert(s[0] + seq!['.'] + (join_dot(s.drop_first()) + seq!['.'] + x)
            =~= (s[0] + seq!['.'] + join_dot(s.drop_first())) + seq!['.'] + x);
    }
}

/// The non-empty labels among `parts`, in order.
pub open spec fn nonempty_labels(parts: Seq<Seq<char>>) -> Seq<Seq<char>>
    decreases parts.len(),
{
    if parts.len() == 0 {
        Seq::empty()
    } else if parts[0].len() == 0 {
        nonempty_labels(parts.drop_first())
    } else {
        seq![parts[0]] + nonempty_labels(parts.drop_first())
    }
}

/// Every label of `parts` encodes to fewer than 0xC0 bytes, so that its
/// length byte does not read as a compression pointer.
pub open spec fn labels_fit(parts: Seq<Seq<char>>) -> bool {
    forall|i: int| 0 <= i < parts.len() ==> encode_utf8(#[trigger] parts[i]).len() < 0xC0
}

proof fn lemma_encode_nonempty(cs: Seq<char>)
    requires
        cs.len() > 0,
    ensures
        encode_utf8(cs).len() > 0,
{
    broadcast use vstd::utf8::encode_utf8_decode_utf8;
    if encode_utf8(cs).len() == 0 {
        assert(encode_utf8(cs) =~= Seq::<u8>::empty());
        assert(decode_utf8(Seq::<u8>::empty()) =~= Seq::<char>::empty());
    }
}

proof fn lemma_labels_read_back(prefix: Seq<u8>, parts: Seq<Seq<char>>, tail: Seq<u8>, hops: nat)
    requires
        tail.len() > 0,
        tail[0] == 0,
        labels_fit(parts),
    ensures
        spec_skip_name(prefix + label_bytes(parts) + tail, prefix.len() as int) == Some(
            (prefix.len() + label_bytes(parts).len() + 1) as int,
        ),
        name_labels(prefix + label_bytes(parts) + tail, prefix.len() as int, hops) == Some(
            Seq::new(nonempty_labels(parts).len(), |i: int| encode_utf8(nonempty_labels(parts)[i])),
        ),
    decreases parts.len(),
{
    let data = prefix + label_bytes(parts) + tail;
    let pos = prefix.len() as int;
    if parts.len() == 0 {
        assert(data[pos] == tail[0]);
        assert(Seq::new(nonempty_labels(parts).len(), |i: int| encode_utf8(nonempty_labels(parts)[i]))
            =~= Seq::<Seq<u8>>::empty());
    } else {
        let rest = parts.drop_first();
        assert(labels_fit(rest)) by {
            assert forall|i: int| 0 <= i < rest.len() implies encode_utf8(#[trigger] rest[i]).len() < 0xC0 by {
                assert(rest[i] == parts[i + 1]);
            }
        }
        if parts[0].len() == 0 {
            lemma_labels_read_back(prefix, rest, tail, hops);
        } else {
            let bytes = encode_utf8(parts[0]);
            let n = bytes.len();
            assert(n < 0xC0) by {
                assert(encode_utf8(parts[0]).len() < 0xC0);
            }
            lemma_encode_nonempty(parts[0]);
            let p2 = prefix + seq![n as u8] + bytes;
            assert(label_bytes(parts) == seq![n as u8] + bytes + label_bytes(rest));
            assert(data =~= p2 + label_bytes(rest) + tail);
            lemma_labels_read_back(p2, rest, tail, hops);
            assert(data[pos] == n as u8);
            assert(data.subrange(pos + 1, pos + 1 + n) =~= bytes);
            let ls = Seq::new(nonempty_labels(rest).len(), |i: int| encode_utf8(nonempty_labels(rest)[i]));
            let all = Seq::new(nonempty_labels(parts).len(), |i: int| encode_utf8(nonempty_labels(parts)[i]));
            assert(nonempty_labels(parts) == seq![parts[0]] + nonempty_labels(rest));
            assert(all =~= seq![bytes] + ls);
        }
    }
}

proof fn lemma_decode_labels(parts: Seq<Seq<char>>)
    ensures
        ({
            let ls = Seq::new(nonempty_labels(parts).len(), |i: int| encode_utf8(nonempty_labels(parts)[i]));
            &&& all_valid_utf8(ls)
            &&& Seq::new(ls.len(), |i: int| decode_utf8(ls[i])) == nonempty_labels(parts)
        }),
{
    broadcast use vstd::utf8::encode_utf8_decode_utf8, vstd::utf8::encode_utf8_valid_utf8;
    let ls = Seq::new(nonempty_labels(parts).len(), |i: int| encode_utf8(nonempty_labels(parts)[i]));
    assert forall|i: int| 0 <= i < ls.len() implies valid_utf8(#[trigger] ls[i]) by {}
    assert(Seq::new(ls.len(), |i: int| decode_utf8(ls[i])) =~= nonempty_labels(parts));
}

/// Reading back the question of a query built for `name`: skipping its name
/// lands right after the root label, and decoding it gives `name` back less
/// its empty labels (so a trailing dot is dropped) — whenever every label
/// is short enough for its length byte not to read as a compression
/// pointer.
pub proof fn query_name_round_trip(name: Seq<char>, qtype: u16)
    requires
        labels_fit(split_on(name, '.')),
    ensures
        spec_skip_name(spec_build_query(name, qtype), 12) == Some(
            (12 + label_bytes(split_on(name, '.')).len() + 1) as int,
        ),
        spec_decode_name(spec_build_query(name, qtype), 12) == Some(join_dot(nonempty_labels(split_on(name, '.')))),
{
    let header = seq![0u8, 0, 0, 0, 0, 1, 0, 0, 0, 0, 0, 0];
    let tail = seq![0u8, (qtype / 256) as u8, (qtype % 256) as u8, 0, 1];
    let parts = split_on(name, '.');
    lemma_labels_read_back(header, parts, tail, 0);
    lemma_decode_labels(parts);
}

/// `std::str::from_utf8` on the bytes, copied into a `String`: the text
/// exactly when the bytes are valid UTF-8.
#[verifier::external_body]
fn utf8_text(bytes: &[u8]) -> (r: Option<String>)
    ensures
        r is Some <==> valid_utf8(bytes@),
        r matches Some(s) ==> s@ == decode_utf8(bytes@),
{
    match std::str::from_utf8(bytes) {
        Ok(s) => Some(s.to_string()),
        Err(_) => None,
    }
}

/// Decodes a (possibly compressed) DNS name starting at `pos` into a
/// dotted string, following at most one compression pointer hop (which
/// also guards against pointer loops).
pub fn decode_name(data: &[u8], pos: usize) -> (r: Option<String>)
    requires
        data@.len() <= isize::MAX,
    ensures
        r is None <==> spec_decode_name(data@, pos as int) is None,
        r matches Some(s) ==> spec_decode_name(data@, pos as int) == Some(s@),
{
    let mut labels: Vec<Vec<char>> = Vec::new();
    let mut lbytes: Ghost<Seq<Seq<u8>>> = Ghost(Seq::empty());
    let mut p = pos;
    let mut hops: usize = 0;
    loop
        invariant
            data@.len() <= isize::MAX,
            hops <= 1,
            labels@.len() == lbytes@.len(),
            all_valid_utf8(lbytes@),
            forall|i: int| 0 <= i < labels@.len() ==> #[trigger] labels@[i]@ == decode_utf8(lbytes@[i]),
            name_labels(data@, pos as int, 0) == match name_labels(data@, p as int, hops as nat) {
                None => None,
                Some(rest) => Some(lbytes@ + rest),
            },
        ensures
            labels@.len() == lbytes@.len(),
            all_valid_utf8(lbytes@),
            forall|i: int| 0 <= i < labels@.len() ==> #[trigger] labels@[i]@ == decode_utf8(lbytes@[i]),
            name_labels(data@, pos as int, 0) == Some(lbytes@),
        decreases 1 - hops, data@.len() - p,
    {
        if p >= data.len() {
            return None;
        }
        let len = data[p] as usize;
        if len == 0 {
            assert(lbytes@ + Seq::<Seq<u8>>::empty() =~= lbytes@);
            break;
        }
        if len >= 0xC0 {
            if hops >= 1 {
                return None;
            }
            if p + 1 >= data.len() {
                return None;
            }
            hops = hops + 1;
            p = (len - 0xC0) * 256 + data[p + 1] as usize;
        } else {
            let start = p + 1;
            if len > data.len() - start {
                return None;
            }
            let end = start + len;
            let piece = slice_range(data, start, end);
            match utf8_text(&piece) {
                Some(text) => {
                    let ghost lb = lbytes@;
                    labels.push(chars_of(text.as_str()));
                    proof {
                        lbytes@ = lb.push(data@.subrange(start as int, end as int));
                        assert(lb + (seq![data@.subrange(start as int, end as int)] + Seq::empty()) =~= lbytes@ + Seq::empty());
                    }
                },
                None => {
                    proof {
                        let piece_v = data@.subrange(start as int, end as int);
                        match name_labels(data@, p as int, hops as nat) {
                            None => {},
                            Some(rest) => {
                                let whole = lbytes@ + rest;
                                assert(rest[0] == piece_v);
                                assert(whole[lbytes@.len() as int] == piece_v);
                                assert(!all_valid_utf8(whole));
                            },
                        }
                    }
                    return None;
                },
            }
            p = end;
        }
    }
    let mut out = String::new();
    let mut k: usize = 0;
    while k < labels.len()
        invariant
            k <= labels@.len(),
            out@ == join_dot(Seq::new(k as nat, |i: int| labels@[i]@)),
        decreases labels@.len() - k,
    {
        let ghost prev = Seq::new(k as nat, |i: int| labels@[i]@);
        if k > 0 {
            push_char(&mut out, '.');
        }
        push_chars(&mut out, &labels[k]);
        proof {
            lemma_join_dot_push(prev, labels@[k as int]@);
            assert(Seq::new((k + 1) as nat, |i: int| labels@[i]@) =~= prev.push(labels@[k as int]@));
        }
        k = k + 1;
    }
    proof {
        assert(Seq::new(labels@.len(), |i: int| labels@[i]@) =~= Seq::new(lbytes@.len(), |i: int| decode_utf8(lbytes@[i])));
        assert(lbytes@ + Seq::<Seq<u8>>::empty() =~= lbytes@);
    }
    Some(out)
}

/// A big-endian 16-bit number.
pub open spec fn be16(a: u8, b: u8) -> nat {
    a as nat * 256 + b as nat
}

/// Where the answers start after skipping `count` questions from `pos`
/// (each a name and then 4 bytes of QTYPE and QCLASS).
pub open spec fn skip_questions(data: Seq<u8>, pos: int, count: nat) -> Option<int>
    decreases count,
{
    if count == 0 {
        Some(pos)
    } else {
        match spec_skip_name(data, pos) {
            None => None,
            Some(p) => skip_questions(data, p + 4, (count - 1) as nat),
        }
    }
}

/// An ASCII uppercase byte turned to lowercase.
pub open spec fn lower_byte(b: u8) -> u8 {
    if 65 <= b && b <= 90 {
        (b + 32) as u8
    } else {
        b
    }
}

/// Byte strings equal but for ASCII letter case, as
/// `str::eq_ignore_ascii_case` compares the bytes of two strings.
pub open spec fn eq_ignore_case(a: Seq<u8>, b: Seq<u8>) -> bool {
    a.len() == b.len() && forall|i: int| 0 <= i < a.len() ==> lower_byte(#[trigger] a[i]) == lower_byte(b[i])
}

/// The name at `pos` decodes and equals `expected` but for ASCII case.
pub open spec fn name_matches(data: Seq<u8>, pos: int, expected: Seq<char>) -> bool {
    match spec_decode_name(data, pos) {
        Some(n) => eq_ignore_case(encode_utf8(n), encode_utf8(expected)),
        None => false,
    }
}

/// The address in the record data at `q`: an A record of 4 bytes gives an
/// IPv4 address, an AAAA record of 16 bytes an IPv6 address, anything
/// else nothing.
pub open spec fn record_addrs(data: Seq<u8>, q: int, qtype: u16, rdlength: nat) -> Seq<IpAddr> {
    if qtype == QTYPE_A && rdlength == 4 {
        seq![IpAddr::V4(v4_value(data[q], data[q + 1], data[q + 2], data[q + 3]) as u32)]
    } else if qtype == QTYPE_AAAA && rdlength == 16 {
        seq![IpAddr::V6(be_value(data.subrange(q, q + 16)) as u128)]
    } else {
        Seq::empty()
    }
}

/// The addresses of the `count` answer records from `pos`: a record whose
/// type is `qtype` and whose name matches `expected` gives its address. A
/// record whose fixed fields or data run past the end stops the reading
/// (keeping what was read); a record whose name cannot be skipped fails
/// the whole reading.
pub open spec fn answers(data: Seq<u8>, pos: int, count: nat, expected: Seq<char>, qtype: u16) -> Option<
    Seq<IpAddr>,
>
    decreases count,
{
    if count == 0 {
        Some(Seq::empty())
    } else {
        match spec_skip_name(data, pos) {
            None => None,
            Some(p) => if p + 10 > data.len() {
                Some(Seq::empty())
            } else {
                let rtype = be16(data[p], data[p + 1]);
                let rdlength = be16(data[p + 8], data[p + 9]);
                let q = p + 10;
                if q + rdlength > data.len() {
                    Some(Seq::empty())
                } else {
                    let here = if rtype == qtype && name_matches(data, pos, expected) {
                        record_addrs(data, q, qtype, rdlength)
                    } else {
                        Seq::empty()
                    };
                    match answers(data, q + rdlength, (count - 1) as nat, expected, qtype) {
                        None => None,
                        Some(rest) => Some(here + rest),
                    }
                }
            },
        }
    }
}

/// The addresses a response gives for `expected` and `qtype`: nothing for
/// a packet shorter than its header, without answers, with a question or
/// answer name that cannot be skipped, or without a matching record.
pub open spec fn spec_parse_records(data: Seq<u8>, expected: Seq<char>, qtype: u16) -> Option<Seq<IpAddr>> {
    if data.len() < 12 {
        None
    } else {
        let ancount = be16(data[6], data[7]);
        let qdcount = be16(data[4], data[5]);
        if ancount == 0 {
            None
        } else {
            match skip_questions(data, 12, qdcount) {
                None => None,
                Some(pos) => match answers(data, pos, ancount, expected, qtype) {
                    None => None,
                    Some(addrs) => if addrs.len() == 0 {
                        None
                    } else {
                        Some(addrs)
                    },
                },
            }
        }
    }
}

/// An answer record for the name at offset 12 (a compression pointer to
/// the question name) of type `qtype`, class IN, TTL 0, with data `rdata`.
pub open spec fn answer_record(qtype: u16, rdata: Seq<u8>) -> Seq<u8> {
    seq![
        0xC0u8,
        12,
        (qtype / 256) as u8,
        (qtype % 256) as u8,
        0,
        1,
        0,
        0,
        0,
        0,
        (rdata.len() / 256) as u8,
        (rdata.len() % 256) as u8,
    ] + rdata
}

/// Answer records of type `qtype` with the data `rdatas`, in order.
pub open spec fn answer_records(qtype: u16, rdatas: Seq<Seq<u8>>) -> Seq<u8>
    decreases rdatas.len(),
{
    if rdatas.len() == 0 {
        Seq::empty()
    } else {
        answer_record(qtype, rdatas[0]) + answer_records(qtype, rdatas.drop_first())
    }
}

/// A response to a `qtype` query for `name` that repeats the question and
/// then answers it with one record of that type for each of `rdatas`.
pub open spec fn response_for(name: Seq<char>, qtype: u16, rdatas: Seq<Seq<u8>>) -> Seq<u8> {
    seq![0u8, 0, 0, 0, 0, 1, (rdatas.len() / 256) as u8, (rdatas.len() % 256) as u8, 0, 0, 0, 0]
        + label_bytes(split_on(name, '.')) + seq![0u8, (qtype / 256) as u8, (qtype % 256) as u8, 0, 1]
        + answer_records(qtype, rdatas)
}

/// The address that record data `r` of an A (4 bytes) or AAAA (16 bytes)
/// record holds, its bytes read in network order.
pub open spec fn address_in(qtype: u16, r: Seq<u8>) -> IpAddr {
    if qtype == QTYPE_A {
        IpAddr::V4(v4_value(r[0], r[1], r[2], r[3]) as u32)
    } else {
        IpAddr::V6(be_value(r) as u128)
    }
}

/// The data length a record of `qtype` (A or AAAA) has.
pub open spec fn address_len(qtype: u16) -> nat {
    if qtype == QTYPE_A {
        4
    } else {
        16
    }
}

/// The name at offset 12 of `data`, read after one pointer hop, is
/// `expected`.
spec fn question_reads_as(data: Seq<u8>, expected: Seq<char>) -> bool {
    match name_labels(data, 12, 1) {
        Some(ls) => all_valid_utf8(ls) && join_dot(Seq::new(ls.len(), |i: int| decode_utf8(ls[i]))) == expected,
        None => false,
    }
}

#[verifier::rlimit(60)]
proof fn lemma_read_answers(
    pre: Seq<u8>,
    qtype: u16,
    rdatas: Seq<Seq<u8>>,
    data: Seq<u8>,
    expected: Seq<char>,
)
    requires
        qtype == QTYPE_A || qtype == QTYPE_AAAA,
        forall|i: int| 0 <= i < rdatas.len() ==> (#[trigger] rdatas[i]).len() == address_len(qtype),
        data == pre + answer_records(qtype, rdatas),
        pre.len() > 13,
        question_reads_as(data, expected),
    ensures
        answers(data, pre.len() as int, rdatas.len(), expected, qtype) == Some(
            Seq::new(rdatas.len(), |i: int| address_in(qtype, rdatas[i])),
        ),
    decreases rdatas.len(),
{
    let pos = pre.len() as int;
    if rdatas.len() == 0 {
        assert(Seq::new(rdatas.len(), |i: int| address_in(qtype, rdatas[i])) =~= Seq::<IpAddr>::empty());
    } else {
        let r = rdatas[0];
        let len = address_len(qtype);
        assert(r.len() == len);
        let rec = answer_record(qtype, r);
        let rest = rdatas.drop_first();
        assert forall|i: int| 0 <= i < rest.len() implies (#[trigger] rest[i]).len() == address_len(qtype) by {
            assert(rest[i] == rdatas[i + 1]);
        }
        let pre2 = pre + rec;
        assert(answer_records(qtype, rdatas) == rec + answer_records(qtype, rest));
        assert(data =~= pre2 + answer_records(qtype, rest));
        assert forall|t: int| 0 <= t < rec.len() implies data[pos + t] == #[trigger] rec[t] by {
            assert(data[pos + t] == (pre + (rec + answer_records(qtype, rest)))[pos + t]);
        }
        assert(rec.len() == 12 + len);
        assert(data[pos] == rec[0]);
        assert(data[pos + 1] == rec[1]);
        assert(data[pos + 2] == rec[2]);
        assert(data[pos + 3] == rec[3]);
        assert(data[pos + 10] == rec[10]);
        assert(data[pos + 11] == rec[11]);
        lemma_read_answers(pre2, qtype, rest, data, expected);
        assert(spec_skip_name(data, pos) == Some(pos + 2));
        assert(name_labels(data, pos, 0) == name_labels(data, 12, 1));
        assert(be16(data[pos + 2], data[pos + 3]) == qtype);
        assert(be16(data[pos + 10], data[pos + 11]) == len);
        assert(data.subrange(pos + 12, pos + 12 + len) =~= r) by {
            assert forall|t: int| 0 <= t < len implies data.subrange(pos + 12, pos + 12 + len)[t] == r[t] by {
                assert(rec[12 + t] == r[t]);
                assert(data[pos + 12 + t] == rec[12 + t]);
            }
        }
        if qtype == QTYPE_A {
            assert(data[pos + 12] == r[0] && data[pos + 13] == r[1] && data[pos + 14] == r[2] && data[pos + 15]
                == r[3]) by {
                assert(data.subrange(pos + 12, pos + 16)[0] == r[0]);
                assert(data.subrange(pos + 12, pos + 16)[1] == r[1]);
                assert(data.subrange(pos + 12, pos + 16)[2] == r[2]);
                assert(data.subrange(pos + 12, pos + 16)[3] == r[3]);
            }
        }
        let here = record_addrs(data, pos + 12, qtype, len);
        assert(here == seq![address_in(qtype, r)]);
        let ex = encode_utf8(expected);
        assert(eq_ignore_case(ex, ex));
        assert(name_matches(data, pos, expected));
        let tail_addrs = Seq::new(rest.len(), |i: int| address_in(qtype, rest[i]));
        assert(Seq::new(rdatas.len(), |i: int| address_in(qtype, rdatas[i])) =~= here + tail_addrs);
    }
}

/// Every matching answer is read: a response whose answers are records of
/// the asked type (A or AAAA) for the question's name gives, for that name
/// (as it decodes, without empty labels), the addresses of all of them, in
/// record order — whenever every label is short enough for its length
/// byte not to read as a compression pointer.
pub proof fn every_matching_answer_is_read(name: Seq<char>, qtype: u16, rdatas: Seq<Seq<u8>>)
    requires
        labels_fit(split_on(name, '.')),
        qtype == QTYPE_A || qtype == QTYPE_AAAA,
        0 < rdatas.len() < 0x1_0000,
        forall|i: int| 0 <= i < rdatas.len() ==> (#[trigger] rdatas[i]).len() == address_len(qtype),
    ensures
        spec_parse_records(response_for(name, qtype, rdatas), join_dot(nonempty_labels(split_on(name, '.'))), qtype)
            == Some(Seq::new(rdatas.len(), |i: int| address_in(qtype, rdatas[i]))),
{
    let parts = split_on(name, '.');
    let n = rdatas.len();
    let header = seq![0u8, 0, 0, 0, 0, 1, (n / 256) as u8, (n % 256) as u8, 0, 0, 0, 0];
    let question_tail = seq![0u8, (qtype / 256) as u8, (qtype % 256) as u8, 0, 1];
    let tail = question_tail + answer_records(qtype, rdatas);
    let data = response_for(name, qtype, rdatas);
    let expected = join_dot(nonempty_labels(parts));
    assert(data =~= header + label_bytes(parts) + tail);
    lemma_labels_read_back(header, parts, tail, 1);
    lemma_labels_read_back(header, parts, tail, 0);
    lemma_decode_labels(parts);
    assert(question_reads_as(data, expected));
    let pre = header + label_bytes(parts) + question_tail;
    assert(data =~= pre + answer_records(qtype, rdatas));
    lemma_read_answers(pre, qtype, rdatas, data, expected);
    assert(data[4] == 0 && data[5] == 1);
    assert(data[6] == (n / 256) as u8 && data[7] == (n % 256) as u8);
    assert(be16(data[6], data[7]) == n);
    assert(spec_skip_name(data, 12) == Some((12 + label_bytes(parts).len() + 1) as int));
    let p = (12 + label_bytes(parts).len() + 1) as int;
    assert(skip_questions(data, p + 4, 0) == Some(p + 4));
    assert(skip_questions(data, 12, 1) == Some(pre.len() as int));
}

proof fn lemma_skip_name_bound(data: Seq<u8>, pos: int)
    ensures
        spec_skip_name(data, pos) matches Some(p) ==> pos < p <= data.len() + 1,
    decreases data.len() - pos,
{
    if 0 <= pos < data.len() {
        let len = data[pos];
        if len != 0 && len < 0xC0 && pos + 1 + len < data.len() {
            lemma_skip_name_bound(data, pos + 1 + len);
        }
    }
}

/// Whether two strings' bytes are equal but for ASCII letter case.
fn eq_ignore_ascii_case(a: &str, b: &str) -> (r: bool)
    ensures
        r == eq_ignore_case(encode_utf8(a@), encode_utf8(b@)),
{
    let x = a.as_bytes();
    let y = b.as_bytes();
    if x.len() != y.len() {
        return false;
    }
    let mut i: usize = 0;
    while i < x.len()
        invariant
            x@ == encode_utf8(a@),
            y@ == encode_utf8(b@),
            x@.len() == y@.len(),
            i <= x@.len(),
            forall|j: int| 0 <= j < i ==> lower_byte(#[trigger] x@[j]) == lower_byte(y@[j]),
        decreases x@.len() - i,
    {
        let p = if 65 <= x[i] && x[i] <= 90 { x[i] + 32 } else { x[i] };
        let q = if 65 <= y[i] && y[i] <= 90 { y[i] + 32 } else { y[i] };
        assert(p == lower_byte(x@[i as int]) && q == lower_byte(y@[i as int]));
        if p != q {
            assert(lower_byte(x@[i as int]) != lower_byte(y@[i as int]));
            assert(!eq_ignore_case(x@, y@));
            return false;
        }
        i = i + 1;
    }
    true
}

/// Extracts A/AAAA-record addresses matching `qtype` from a response, only
/// those of answers whose name matches what was asked for (mDNS responders
/// on the segment may answer other queries too).
pub fn parse_records(data: &[u8], expected_name: &str, qtype: u16) -> (r: Option<Vec<IpAddr>>)
    requires
        data@.len() <= isize::MAX,
    ensures
        r is None <==> spec_parse_records(data@, expected_name@, qtype) is None,
        r matches Some(v) ==> spec_parse_records(data@, expected_name@, qtype) == Some(v@),
{
    if data.len() < 12 {
        return None;
    }
    let ancount = data[6] as usize * 256 + data[7] as usize;
    if ancount == 0 {
        return None;
    }
    let qdcount = data[4] as usize * 256 + data[5] as usize;
    assert(ancount == be16(data@[6], data@[7]) && qdcount == be16(data@[4], data@[5]));
    let mut pos: usize = 12;
    let mut n: usize = 0;
    while n < qdcount
        invariant
            data@.len() <= isize::MAX,
            data@.len() >= 12,
            qdcount == be16(data@[4], data@[5]),
            ancount == be16(data@[6], data@[7]),
            ancount > 0,
            n <= qdcount,
            pos <= data@.len() + 5,
            skip_questions(data@, 12, qdcount as nat) == skip_questions(data@, pos as int, (qdcount - n) as nat),
        decreases qdcount - n,
    {
        proof {
            lemma_skip_name_bound(data@, pos as int);
        }
        match skip_name(data, pos) {
            Some(p) => {
                pos = p + 4;
            },
            None => {
                assert(skip_questions(data@, pos as int, (qdcount - n) as nat) is None);
                assert(skip_questions(data@, 12, be16(data@[4], data@[5])) is None);
                assert(spec_parse_records(data@, expected_name@, qtype) is None);
                return None;
            },
        }
        n = n + 1;
    }
    let mut addrs: Vec<IpAddr> = Vec::new();
    let mut m: usize = 0;
    let ghost start = pos;
    assert(skip_questions(data@, 12, be16(data@[4], data@[5])) == Some(start as int));
    assert(addrs@ + Seq::<IpAddr>::empty() =~= addrs@);
    while m < ancount
        invariant
            data@.len() <= isize::MAX,
            data@.len() >= 12,
            qdcount == be16(data@[4], data@[5]),
            ancount == be16(data@[6], data@[7]),
            ancount > 0,
            skip_questions(data@, 12, qdcount as nat) == Some(start as int),
            m <= ancount,
            pos <= data@.len() + 5,
            answers(data@, start as int, ancount as nat, expected_name@, qtype) == match answers(
                data@,
                pos as int,
                (ancount - m) as nat,
                expected_name@,
                qtype,
            ) {
                None => None,
                Some(rest) => Some(addrs@ + rest),
            },
        ensures
            answers(data@, start as int, ancount as nat, expected_name@, qtype) == Some(addrs@),
        decreases ancount - m,
    {
        let name_start = pos;
        proof {
            lemma_skip_name_bound(data@, pos as int);
        }
        let p = match skip_name(data, pos) {
            Some(p) => p,
            None => {
                assert(answers(data@, pos as int, (ancount - m) as nat, expected_name@, qtype) is None);
                assert(answers(data@, start as int, ancount as nat, expected_name@, qtype) is None);
                assert(spec_parse_records(data@, expected_name@, qtype) is None);
                return None;
            },
        };
        if p > data.len() || data.len() - p < 10 {
            assert(addrs@ + Seq::<IpAddr>::empty() =~= addrs@);
            break;
        }
        let rtype = data[p] as usize * 256 + data[p + 1] as usize;
        let rdlength = data[p + 8] as usize * 256 + data[p + 9] as usize;
        let q = p + 10;
        if rdlength > data.len() - q {
            assert(addrs@ + Seq::<IpAddr>::empty() =~= addrs@);
            break;
        }
        let ghost before = addrs@;
        if rtype == qtype as usize {
            let matches = match decode_name(data, name_start) {
                Some(n) => eq_ignore_ascii_case(n.as_str(), expected_name),
                None => false,
            };
            if matches {
                if qtype == QTYPE_A && rdlength == 4 {
                    addrs.push(IpAddr::from_v4_octets(data[q], data[q + 1], data[q + 2], data[q + 3]));
                } else if qtype == QTYPE_AAAA && rdlength == 16 {
                    let octets = slice_range(data, q, q + 16);
                    addrs.push(IpAddr::from_v6_octets(&octets));
                }
            }
        }
        proof {
            let here = addrs@.subrange(before.len() as int, addrs@.len() as int);
            assert(addrs@ =~= before + here);
            assert(here == (if rtype == qtype && name_matches(data@, name_start as int, expected_name@) {
                record_addrs(data@, q as int, qtype, rdlength as nat)
            } else {
                Seq::empty()
            }));
            match answers(data@, (q + rdlength) as int, (ancount - m - 1) as nat, expected_name@, qtype) {
                None => {},
                Some(rest) => {
                    assert(before + (here + rest) =~= addrs@ + rest);
                },
            }
        }
        pos = q + rdlength;
        m = m + 1;
    }
    if addrs.len() == 0 {
        None
    } else {
        Some(addrs)
    }
}

/// A copy of `data[from..to]`.
fn slice_range(data: &[u8], from: usize, to: usize) -> (r: Vec<u8>)
    requires
        from <= to <= data@.len(),
    ensures
        r@ == data@.subrange(from as int, to as int),
{
    let mut out: Vec<u8> = Vec::new();
    let mut i = from;
    while i < to
        invariant
            from <= i <= to,
            to <= data@.len(),
            out@ == data@.subrange(from as int, i as int),
        decreases to - i,
    {
        out.push(data[i]);
        assert(data@.subrange(from as int, i + 1) =~= data@.subrange(from as int, i as int).push(data@[i as int]));
        i = i + 1;
    }
    out
}

/// The addresses that the responses `packets` give for `expected` and
/// `qtype`, in the order received (a response that gives none adds
/// nothing).
pub open spec fn collected(packets: Seq<Vec<u8>>, expected: Seq<char>, qtype: u16) -> Seq<IpAddr>
    decreases packets.len(),
{
    if packets.len() == 0 {
        Seq::empty()
    } else {
        let rest = collected(packets.drop_last(), expected, qtype);
        match spec_parse_records(packets.last()@, expected, qtype) {
            Some(a) => rest + a,
            None => rest,
        }
    }
}

/// What a one-shot query learns from the responses that arrived before
/// its deadline: the distinct addresses that they give for `name` and
/// `qtype`, in the address order.
pub fn mdns_addresses(packets: &Vec<Vec<u8>>, name: &str, qtype: u16) -> (r: Vec<IpAddr>)
    requires
        forall|i: int| 0 <= i < packets@.len() ==> (#[trigger] packets@[i])@.len() <= isize::MAX,
    ensures
        strictly_sorted(r@),
        forall|x: IpAddr| r@.contains(x) <==> collected(packets@, name@, qtype).contains(x),
{
    let mut all: Vec<IpAddr> = Vec::new();
    let mut i: usize = 0;
    while i < packets.len()
        invariant
            i <= packets@.len(),
            forall|k: int| 0 <= k < packets@.len() ==> (#[trigger] packets@[k])@.len() <= isize::MAX,
            all@ == collected(packets@.take(i as int), name@, qtype),
        decreases packets@.len() - i,
    {
        assert(packets@.take(i + 1).drop_last() =~= packets@.take(i as int));
        assert(packets@.take(i + 1).last() == packets@[i as int]);
        match parse_records(packets[i].as_slice(), name, qtype) {
            Some(found) => {
                let ghost before = all@;
                let mut j: usize = 0;
                while j < found.len()
                    invariant
                        j <= found@.len(),
                        all@ == before + found@.take(j as int),
                    decreases found@.len() - j,
                {
                    all.push(found[j]);
                    assert(before + found@.take(j + 1) =~= (before + found@.take(j as int)).push(found@[j as int]));
                    j = j + 1;
                }
                assert(found@.take(found@.len() as int) =~= found@);
            },
            None => {},
        }
        i = i + 1;
    }
    assert(packets@.take(packets@.len() as int) =~= packets@);
    sorted_unique(&all)
}

} // verus!
