use gai::mdns::{build_query, decode_name, mdns_addresses, parse_records, skip_name, QTYPE_A, QTYPE_AAAA};
use gai::IpAddr;

/// Appends a single A-record answer (with a name-compression pointer back
/// to offset 12, where the question name starts) and bumps ANCOUNT.
fn append_a_answer(mut packet: Vec<u8>, ip: [u8; 4]) -> Vec<u8> {
    packet.extend_from_slice(&(0xC000u16 | 12).to_be_bytes());
    packet.extend_from_slice(&QTYPE_A.to_be_bytes());
    packet.extend_from_slice(&1u16.to_be_bytes());
    packet.extend_from_slice(&0u32.to_be_bytes());
    packet.extend_from_slice(&4u16.to_be_bytes());
    packet.extend_from_slice(&ip);
    bump_ancount(packet)
}

fn append_aaaa_answer(mut packet: Vec<u8>, ip: [u8; 16]) -> Vec<u8> {
    packet.extend_from_slice(&(0xC000u16 | 12).to_be_bytes());
    packet.extend_from_slice(&QTYPE_AAAA.to_be_bytes());
    packet.extend_from_slice(&1u16.to_be_bytes());
    packet.extend_from_slice(&0u32.to_be_bytes());
    packet.extend_from_slice(&16u16.to_be_bytes());
    packet.extend_from_slice(&ip);
    bump_ancount(packet)
}

fn bump_ancount(mut packet: Vec<u8>) -> Vec<u8> {
    let ancount = u16::from_be_bytes([packet[6], packet[7]]) + 1;
    packet[6..8].copy_from_slice(&ancount.to_be_bytes());
    packet
}

/// fe80::1 as sixteen octets.
fn fe80_1() -> [u8; 16] {
    let mut o = [0u8; 16];
    o[0] = 0xfe;
    o[1] = 0x80;
    o[15] = 1;
    o
}

#[test]
fn build_query_encodes_labels_and_root_and_qtype_a() {
    let packet = build_query("api.local", QTYPE_A);
    assert_eq!(&packet[0..12], &[0, 0, 0, 0, 0, 1, 0, 0, 0, 0, 0, 0]);

    let expected_question = b"\x03api\x05local\x00";
    assert_eq!(&packet[12..12 + expected_question.len()], expected_question);
    let after = 12 + expected_question.len();
    assert_eq!(&packet[after..after + 2], &QTYPE_A.to_be_bytes());
    assert_eq!(&packet[after + 2..after + 4], &1u16.to_be_bytes());
}

#[test]
fn build_query_uses_qtype_aaaa_when_requested() {
    let packet = build_query("api.local", QTYPE_AAAA);
    let expected_question = b"\x03api\x05local\x00";
    let after = 12 + expected_question.len();
    assert_eq!(&packet[after..after + 2], &QTYPE_AAAA.to_be_bytes());
}

#[test]
fn build_query_skips_empty_labels_from_trailing_dot() {
    let packet = build_query("api.local.", QTYPE_A);
    let expected_question = b"\x03api\x05local\x00";
    assert_eq!(&packet[12..12 + expected_question.len()], expected_question);
}

#[test]
fn build_query_whole_packet_has_exact_length() {
    let packet = build_query("a.bc", QTYPE_A);
    assert_eq!(packet, vec![0, 0, 0, 0, 0, 1, 0, 0, 0, 0, 0, 0, 1, b'a', 2, b'b', b'c', 0, 0, 1, 0, 1]);
}

#[test]
fn parse_records_extracts_matching_a_answer() {
    let query = build_query("api.local", QTYPE_A);
    let packet = append_a_answer(query, [192, 168, 1, 42]);

    let addrs = parse_records(&packet, "api.local", QTYPE_A).expect("should find a record");
    assert_eq!(addrs, vec![IpAddr::from_v4_octets(192, 168, 1, 42)]);
}

#[test]
fn parse_records_extracts_matching_aaaa_answer() {
    let query = build_query("api.local", QTYPE_AAAA);
    let ip = fe80_1();
    let packet = append_aaaa_answer(query, ip);

    let addrs = parse_records(&packet, "api.local", QTYPE_AAAA).expect("should find an AAAA record");
    assert_eq!(addrs, vec![IpAddr::from_v6_octets(&ip)]);
    assert_eq!(addrs, vec![IpAddr::V6(0xfe80_0000_0000_0000_0000_0000_0000_0001)]);
}

#[test]
fn parse_records_ignores_aaaa_answer_when_asking_for_a() {
    let query = build_query("api.local", QTYPE_A);
    let packet = append_aaaa_answer(query, fe80_1());

    assert!(parse_records(&packet, "api.local", QTYPE_A).is_none());
}

#[test]
fn parse_records_ignores_answer_for_a_different_name() {
    let query = build_query("printer.local", QTYPE_A);
    let packet = append_a_answer(query, [10, 0, 0, 5]);

    let addrs = parse_records(&packet, "api.local", QTYPE_A);
    assert!(addrs.is_none(), "must not report a match for the wrong name");
}

#[test]
fn parse_records_returns_none_with_zero_answers() {
    let query = build_query("api.local", QTYPE_A);
    assert!(parse_records(&query, "api.local", QTYPE_A).is_none());
}

#[test]
fn parse_records_returns_none_on_truncated_packet() {
    let mut packet = append_a_answer(build_query("api.local", QTYPE_A), [1, 2, 3, 4]);
    packet.truncate(packet.len() - 3);
    assert!(parse_records(&packet, "api.local", QTYPE_A).is_none());
}

#[test]
fn parse_records_matches_names_ignoring_ascii_case() {
    let packet = append_a_answer(build_query("API.Local", QTYPE_A), [10, 1, 2, 3]);
    let addrs = parse_records(&packet, "api.local", QTYPE_A).expect("case-insensitive match");
    assert_eq!(addrs, vec![IpAddr::V4(0x0A01_0203)]);
}

#[test]
fn parse_records_returns_none_on_short_header() {
    assert!(parse_records(&[0u8; 11], "api.local", QTYPE_A).is_none());
}

#[test]
fn skip_name_follows_compression_pointer_as_two_bytes() {
    let data = [0xC0, 0x00, 0xAA];
    let next = skip_name(&data, 0).expect("valid pointer");
    assert_eq!(next, 2);
}

#[test]
fn skip_name_returns_none_on_truncated_label() {
    let data = [5u8, b'a', b'b'];
    assert!(skip_name(&data, 0).is_none());
}

#[test]
fn skip_name_steps_over_labels_and_root() {
    let data = b"\x03api\x05local\x00\x00\x01";
    assert_eq!(skip_name(data, 0), Some(11));
}

#[test]
fn decode_name_reassembles_dotted_labels() {
    let mut data = vec![0u8; 12];
    data.extend_from_slice(b"\x03api\x05local\x00");
    let name = decode_name(&data, 12).expect("decodes");
    assert_eq!(name, "api.local");
}

#[test]
fn decode_name_guards_against_pointer_loops() {
    let data = [0xC0, 0x00, 0xC0, 0x00];
    assert!(decode_name(&data, 0).is_none());
}

#[test]
fn decode_name_follows_a_pointer() {
    let mut data = vec![0u8; 12];
    data.extend_from_slice(b"\x03api\x05local\x00");
    data.extend_from_slice(&[0xC0, 12]);
    assert_eq!(decode_name(&data, 23).as_deref(), Some("api.local"));
}

#[test]
fn decode_name_rejects_invalid_utf8() {
    let data = [1u8, 0xFF, 0];
    assert!(decode_name(&data, 0).is_none());
}

#[test]
fn mdns_addresses_merges_sorts_and_dedups_responses() {
    let first = append_a_answer(build_query("api.local", QTYPE_A), [10, 0, 0, 9]);
    let second = append_a_answer(
        append_a_answer(build_query("api.local", QTYPE_A), [10, 0, 0, 2]),
        [10, 0, 0, 9],
    );
    let noise = append_a_answer(build_query("printer.local", QTYPE_A), [10, 0, 0, 1]);
    let addrs = mdns_addresses(&vec![first, noise, second], "api.local", QTYPE_A);
    assert_eq!(addrs, vec![IpAddr::V4(0x0A00_0002), IpAddr::V4(0x0A00_0009)]);
}

#[test]
fn mdns_addresses_of_no_responses_is_empty() {
    assert!(mdns_addresses(&vec![], "api.local", QTYPE_A).is_empty());
}

#[test]
fn question_of_a_built_query_reads_back() {
    for (name, expected) in [("api.local", "api.local"), ("api.local.", "api.local"), ("a..b", "a.b"), ("", "")] {
        let packet = build_query(name, QTYPE_A);
        assert_eq!(decode_name(&packet, 12).as_deref(), Some(expected));
        let question_end = packet.len() - 4;
        assert_eq!(skip_name(&packet, 12), Some(question_end));
    }
}

#[test]
fn decode_name_follows_at_most_one_pointer_hop() {
    let mut data = vec![0u8; 12];
    data.extend_from_slice(b"\x03api\x05local\x00");
    data.extend_from_slice(&[0xC0, 12, 0xC0, 23]);
    assert_eq!(decode_name(&data, 23).as_deref(), Some("api.local"));
    assert!(decode_name(&data, 25).is_none());
}
