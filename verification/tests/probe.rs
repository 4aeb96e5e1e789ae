//! What the probe makes of a connection.
use machine_elves::addr::{
    is_global_unicast_v6, is_private_address, is_shared_address_space, Endpoint, Ip, Ip4, Ip6,
};
use machine_elves::chance::{
    millis_by, nanos_by, now_millis, now_seconds, random_transaction_id, seconds_by,
    transaction_from,
};
use machine_elves::clock::{date_of, format_utc};
use machine_elves::json::quote;
use machine_elves::lifetime::{
    conclude, interval_for, mapping_json, mapping_record, pick_idle_interval, report_mapping,
    Found, MappingTest, Outcome, IDLE_INTERVALS,
};
use machine_elves::probe::parse_probe_args;
use machine_elves::punch::{
    answered_line, arrived_line, on_refresh, punch_hello, punch_reply, punch_summary, refresh_due,
    Contact, Move, Punch,
};
use machine_elves::stun::{
    build_binding_request, decode_address, parse_binding_response, stun_servers, Attempt, Progress,
    Query, QueryError, ATTR_MAPPED_ADDRESS, ATTR_XOR_MAPPED_ADDRESS, BINDING_SUCCESS,
    MAGIC_COOKIE,
};
use machine_elves::verdict::{
    describe_v4, describe_v6, json_string, report, report_json, report_record, Family,
    FamilyResult,
};
use std::str::FromStr;

fn ip4(a: u8, b: u8, c: u8, d: u8) -> Ip4 {
    Ip4 { a, b, c, d }
}

fn v4(a: u8, b: u8, c: u8, d: u8, port: u16) -> Endpoint {
    Endpoint { ip: Ip::V4(ip4(a, b, c, d)), port, scope: 0 }
}

fn ip6(segments: [u16; 8]) -> Ip6 {
    let mut octets = [0u8; 16];
    for (i, s) in segments.iter().enumerate() {
        octets[2 * i] = (s >> 8) as u8;
        octets[2 * i + 1] = (s & 0xff) as u8;
    }
    Ip6 { octets }
}

fn v6(segments: [u16; 8], port: u16) -> Endpoint {
    Endpoint { ip: Ip::V6(ip6(segments)), port, scope: 0 }
}

fn empty(family: Family) -> FamilyResult {
    FamilyResult { family, local: None, observations: Vec::new(), errors: Vec::new() }
}

#[test]
fn intervals_ascend_and_span_the_interesting_range() {
    assert!(IDLE_INTERVALS.windows(2).all(|w| w[0] < w[1]));
    // Routers are asked to hold UDP mappings for at least 120s, so the list
    // must have values on both sides of that rather than stopping short.
    assert!(IDLE_INTERVALS.first().copied().unwrap() < 120);
    assert!(IDLE_INTERVALS.last().copied().unwrap() > 120);
}

#[test]
fn only_ever_picks_a_listed_interval() {
    for _ in 0..200 {
        assert!(IDLE_INTERVALS.contains(&pick_idle_interval()));
    }
}

#[test]
fn a_draw_chooses_an_interval() {
    assert_eq!(interval_for(0), 15);
    assert_eq!(interval_for(10), 600);
    assert_eq!(interval_for(11), 15);
    assert_eq!(interval_for(u64::MAX), IDLE_INTERVALS[(u64::MAX % 11) as usize]);
    // Chance reaches more than one of them.
    let picked: std::collections::BTreeSet<u64> = (0..200).map(|_| pick_idle_interval()).collect();
    assert!(picked.len() > 1);
}

#[test]
fn mapping_record_is_parseable_and_tagged() {
    let test = MappingTest {
        idle_seconds: 120,
        server: "stun.example.net:3478".to_string(),
        first: Some(v4(203, 0, 113, 7, 45485)),
        second: Some(v4(203, 0, 113, 7, 45485)),
        outcome: Outcome::Survived,
    };
    let record = mapping_json("vol-2", &test);
    assert!(record.starts_with('{') && record.ends_with('}'));
    assert!(record.contains(r#""test":"mapping-lifetime""#));
    assert!(record.contains(r#""outcome":"survived""#));
    assert!(record.contains(r#""idle_seconds":120"#));
    assert!(record.contains(r#""note":null"#));
}

#[test]
fn inconclusive_records_carry_their_reason() {
    let test = MappingTest {
        idle_seconds: 60,
        server: "-".to_string(),
        first: None,
        second: None,
        outcome: Outcome::Inconclusive("public address changed mid-test"),
    };
    let record = mapping_json("vol-2", &test);
    assert!(record.contains(r#""outcome":"inconclusive""#));
    assert!(record.contains(r#""note":"public address changed mid-test""#));
    assert!(record.contains(r#""first":null"#));
}

#[test]
fn connectivity_records_are_tagged_too() {
    let record = report_json("vol-1", &empty(Family::V4), &empty(Family::V6));
    assert!(record.contains(r#""test":"connectivity""#));
}

#[test]
fn formats_known_epochs_as_utc() {
    assert_eq!(format_utc(0), "1970-01-01T00:00:00Z");
    assert_eq!(format_utc(1_000_000_000), "2001-09-09T01:46:40Z");
    // A leap day, which the naive arithmetic gets wrong.
    assert_eq!(format_utc(1_709_164_800), "2024-02-29T00:00:00Z");
}

#[test]
fn dates_at_the_edges_of_years() {
    assert_eq!(date_of(58), (1970, 2, 28));
    assert_eq!(date_of(59), (1970, 3, 1));
    assert_eq!(date_of(364), (1970, 12, 31));
    assert_eq!(format_utc(951_782_399), "2000-02-28T23:59:59Z");
    assert_eq!(format_utc(951_868_800), "2000-03-01T00:00:00Z");
    assert_eq!(format_utc(4_107_542_399), "2100-02-28T23:59:59Z");
    assert_eq!(format_utc(4_107_542_400), "2100-03-01T00:00:00Z");
    assert_eq!(format_utc(253_402_300_800), "10000-01-01T00:00:00Z");
    // No date is skipped and none comes twice.
    let mut last = (1970, 1, 0);
    for day in 0..200_000 {
        let date = date_of(day);
        assert!(date > last);
        assert!(date.2 == last.2 + 1 || date.2 == 1);
        last = date;
    }
}

#[test]
fn main_escapes_json_strings() {
    assert_eq!(json_string(r#"a"b\c"#), r#""a\"b\\c""#);
    assert_eq!(json_string("line\nbreak"), r#""line\nbreak""#);
}

#[test]
fn every_escape_of_the_probe() {
    assert_eq!(json_string("\r\t\u{0}\u{1f}~"), "\"\\r\\t\\u0000\\u001f~\"");
}

#[test]
fn emits_parseable_record_when_everything_failed() {
    let failed = |family| FamilyResult {
        family,
        local: None,
        observations: Vec::new(),
        errors: vec!["no reply".to_string()],
    };
    let record = report_json("vol-1", &failed(Family::V4), &failed(Family::V6));
    assert!(record.starts_with('{') && record.ends_with('}'));
    assert!(record.contains(r#""label":"vol-1""#));
    assert!(record.contains(r#""relay_candidate":false"#));
    assert!(record.contains(r#""tag":"unreachable""#));
}

#[test]
fn decodes_xor_mapped_ipv4() {
    let transaction = [0u8; 12];
    // 192.0.2.1:32853, hidden.
    let port = 32853u16 ^ (MAGIC_COOKIE >> 16) as u16;
    let mut octets = [192u8, 0, 2, 1];
    for (i, byte) in MAGIC_COOKIE.to_be_bytes().iter().enumerate() {
        octets[i] ^= byte;
    }
    let mut value = vec![0x00, 0x01];
    value.extend_from_slice(&port.to_be_bytes());
    value.extend_from_slice(&octets);

    let decoded = decode_address(&value, true, &transaction).expect("decodes");
    assert_eq!(decoded, v4(192, 0, 2, 1, 32853));
}

#[test]
fn rejects_response_with_wrong_transaction_id() {
    let ours = [1u8; 12];
    let theirs = [2u8; 12];
    let mut msg = Vec::new();
    msg.extend_from_slice(&BINDING_SUCCESS.to_be_bytes());
    msg.extend_from_slice(&0u16.to_be_bytes());
    msg.extend_from_slice(&MAGIC_COOKIE.to_be_bytes());
    msg.extend_from_slice(&theirs);
    assert!(parse_binding_response(&msg, &ours).is_none());
}

#[test]
fn identifies_carrier_grade_nat_range() {
    assert!(is_shared_address_space(ip4(100, 64, 0, 1)));
    assert!(is_shared_address_space(ip4(100, 127, 255, 255)));
    assert!(!is_shared_address_space(ip4(100, 63, 255, 255)));
    assert!(!is_shared_address_space(ip4(100, 128, 0, 0)));
}

#[test]
fn identifies_private_ranges() {
    assert!(is_private_address(ip4(10, 0, 0, 1)));
    assert!(is_private_address(ip4(172, 16, 0, 1)) && is_private_address(ip4(172, 31, 0, 1)));
    assert!(!is_private_address(ip4(172, 32, 0, 1)) && !is_private_address(ip4(172, 15, 0, 1)));
    assert!(is_private_address(ip4(192, 168, 9, 9)) && !is_private_address(ip4(192, 169, 0, 1)));
}

#[test]
fn identifies_global_ipv6_only() {
    assert!(is_global_unicast_v6(ip6([0x2001, 0xdb8, 0, 0, 0, 0, 0, 1])));
    assert!(!is_global_unicast_v6(ip6([0xfe80, 0, 0, 0, 0, 0, 0, 1])));
    assert!(!is_global_unicast_v6(ip6([0xfd00, 0, 0, 0, 0, 0, 0, 1])));
}

#[test]
fn skips_unknown_attributes_to_find_the_mapped_address() {
    let transaction = [7u8; 12];
    let mut attrs = Vec::new();
    // An unknown attribute with a 3-byte value, forcing one byte of padding.
    attrs.extend_from_slice(&0x9999u16.to_be_bytes());
    attrs.extend_from_slice(&3u16.to_be_bytes());
    attrs.extend_from_slice(&[0xAA, 0xBB, 0xCC, 0x00]);

    let port = 1234u16 ^ (MAGIC_COOKIE >> 16) as u16;
    let mut octets = [203u8, 0, 113, 5];
    for (i, byte) in MAGIC_COOKIE.to_be_bytes().iter().enumerate() {
        octets[i] ^= byte;
    }
    attrs.extend_from_slice(&ATTR_XOR_MAPPED_ADDRESS.to_be_bytes());
    attrs.extend_from_slice(&8u16.to_be_bytes());
    attrs.extend_from_slice(&[0x00, 0x01]);
    attrs.extend_from_slice(&port.to_be_bytes());
    attrs.extend_from_slice(&octets);

    let decoded = parse_binding_response(&message(&attrs, &transaction), &transaction)
        .expect("finds address");
    assert_eq!(decoded.port, 1234);
    assert_eq!(decoded.text(), "203.0.113.5:1234");
}

/// A successful reply with these attributes.
fn message(attrs: &[u8], transaction: &[u8; 12]) -> Vec<u8> {
    let mut msg = Vec::new();
    msg.extend_from_slice(&BINDING_SUCCESS.to_be_bytes());
    msg.extend_from_slice(&(attrs.len() as u16).to_be_bytes());
    msg.extend_from_slice(&MAGIC_COOKIE.to_be_bytes());
    msg.extend_from_slice(transaction);
    msg.extend_from_slice(attrs);
    msg
}

fn attribute(kind: u16, value: &[u8]) -> Vec<u8> {
    let mut out = kind.to_be_bytes().to_vec();
    out.extend_from_slice(&(value.len() as u16).to_be_bytes());
    out.extend_from_slice(value);
    while out.len() % 4 != 0 {
        out.push(0);
    }
    out
}

#[test]
fn an_obsolete_address_counts_only_where_there_is_no_other() {
    let t = [3u8; 12];
    let plain = attribute(ATTR_MAPPED_ADDRESS, &[0, 1, 0x12, 0x34, 192, 0, 2, 9]);
    let broken = attribute(ATTR_MAPPED_ADDRESS, &[0, 1, 0x12, 0x34]);
    let hidden = attribute(
        ATTR_XOR_MAPPED_ADDRESS,
        &[0, 1, 0x21, 0x13, 192 ^ 0x21, 0x12, 2 ^ 0xA4, 1 ^ 0x42],
    );
    let told = |attrs: Vec<Vec<u8>>| parse_binding_response(&message(&attrs.concat(), &t), &t);
    assert_eq!(told(vec![plain.clone()]), Some(v4(192, 0, 2, 9, 0x1234)));
    assert_eq!(told(vec![broken.clone(), plain.clone()]), Some(v4(192, 0, 2, 9, 0x1234)));
    assert_eq!(told(vec![plain.clone(), hidden.clone()]), Some(v4(192, 0, 2, 1, 1)));
    assert_eq!(told(vec![broken]), None);
    // An attribute that runs past the end ends the reply.
    let mut cut = message(&[plain.clone(), hidden].concat(), &t);
    cut.pop();
    assert_eq!(parse_binding_response(&cut, &t), Some(v4(192, 0, 2, 9, 0x1234)));
    // What lies behind the declared length is not looked at.
    let mut more = message(&[], &t);
    more.extend_from_slice(&plain);
    assert_eq!(parse_binding_response(&more, &t), None);
}

#[test]
fn decodes_hidden_ipv6() {
    let t: [u8; 12] = [1, 2, 3, 4, 5, 6, 7, 8, 9, 10, 11, 12];
    let place = v6([0x2001, 0xdb8, 0, 0, 0, 0, 0, 1], 443);
    let mut key = MAGIC_COOKIE.to_be_bytes().to_vec();
    key.extend_from_slice(&t);
    let mut value = vec![0, 2];
    value.extend_from_slice(&(443u16 ^ 0x2112).to_be_bytes());
    match place.ip {
        Ip::V6(ip) => value.extend(ip.octets.iter().zip(&key).map(|(a, b)| a ^ b)),
        Ip::V4(_) => unreachable!(),
    }
    assert_eq!(decode_address(&value, true, &t), Some(place));
    assert_eq!(decode_address(&value[..19], true, &t), None);
    assert_eq!(decode_address(&[0, 3, 0, 0, 0, 0, 0, 0], false, &t), None);
    assert_eq!(decode_address(&[0, 1, 0], false, &t), None);
}

#[test]
fn a_request_byte_for_byte() {
    let msg = build_binding_request(&[9; 12]);
    assert_eq!(&msg[..8], [0, 1, 0, 0, 0x21, 0x12, 0xA4, 0x42]);
    assert_eq!(&msg[8..], [9; 12]);
    assert_eq!(stun_servers()[1], "stun.cloudflare.com:3478");
}

#[test]
fn addresses_are_written_as_they_always_are() {
    for text in [
        "0:0:0:0:0:0:0:0", "::1", "1::", "2001:db8::1", "2001:db8:0:1:1:1:1:1",
        "2001:0:0:1:0:0:0:1", "1:0:0:2:0:0:3:4", "0:0:1:0:0:0:0:0", "::ffff:1.2.3.4",
        "::fffe:1.2.3.4", "fe80::1:0:0:abcd", "a:b:c:d:e:f:1:2", "::1.2.3.4", "0:1:0:1:0:1:0:1",
    ] {
        let theirs = libp2p::multiaddr::Multiaddr::from_str(&format!("/ip6/{text}/tcp/7"))
            .expect("an address");
        let segments = match theirs.iter().next() {
            Some(libp2p::multiaddr::Protocol::Ip6(ip)) => ip.segments(),
            _ => unreachable!(),
        };
        let ours = v6(segments, 7);
        assert_eq!(format!("/ip6/{}/tcp/7", ours.ip.text()), theirs.to_string());
        assert_eq!(ours.text(), format!("[{}]:7", ours.ip.text()));
    }
    assert_eq!(v4(1, 20, 255, 0, 65535).text(), "1.20.255.0:65535");
}

#[test]
fn a_query_is_made_three_times() {
    let again = |progress: Progress| match progress {
        Progress::Again(query) => query,
        _ => panic!("not again"),
    };
    let query = again(Query::new().after(Attempt::Stray));
    let query = again(query.after(Attempt::Reply(None)));
    match query.after(Attempt::Stray) {
        Progress::GaveUp(error) => assert_eq!(error.message(), "unrecognised reply"),
        _ => panic!("went on"),
    }
    let query = again(Query::new().after(Attempt::Stray));
    let query = again(query.after(Attempt::Stray));
    match query.after(Attempt::Stray) {
        Progress::GaveUp(error) => assert_eq!(error.message(), "no reply"),
        _ => panic!("went on"),
    }
    let query = again(Query::new().after(Attempt::Failed(QueryError::Failed("down".into()))));
    match query.after(Attempt::Reply(Some(v4(1, 2, 3, 4, 5)))) {
        Progress::Found(place) => assert_eq!(place, v4(1, 2, 3, 4, 5)),
        _ => panic!("not found"),
    }
    assert_eq!(QueryError::Failed("down".into()).message(), "down");
}

#[test]
fn transactions_are_not_all_alike() {
    assert_ne!(random_transaction_id(), random_transaction_id());
    assert_eq!(
        transaction_from(0x0102_0304_0000_0000, 0x0506_0708_ffff_ffff, 0x090a_0b0c_0000_0001),
        [1, 2, 3, 4, 5, 6, 7, 8, 9, 10, 11, 12]
    );
}

#[test]
fn the_clock_is_read_in_three_units() {
    assert_eq!(seconds_by(Some((5, 999_999_999))), 5);
    assert_eq!(millis_by(Some((5, 999_999_999))), 5_999);
    assert_eq!(nanos_by(Some((5, 7))), 5_000_000_007);
    assert_eq!(nanos_by(Some((u64::MAX, 0))), u64::MAX.wrapping_mul(1_000_000_000));
    assert_eq!((seconds_by(None), millis_by(None), nanos_by(None)), (0, 0, 0));
    let (before, after) = (now_seconds(), now_millis());
    assert!(before > 1_600_000_000 && after / 1_000 >= before as u128);
}

/// What two servers on distinct addresses saw.
fn seen(local: Option<Ip>, mapped: [Endpoint; 2]) -> FamilyResult {
    let mut result = FamilyResult::new(Family::V4);
    result.local = local;
    result.on_seen("a:1", Ip::V4(ip4(198, 51, 100, 1)), mapped[0]);
    result.on_seen("b:2", Ip::V4(ip4(198, 51, 100, 2)), mapped[1]);
    result
}

#[test]
fn every_kind_of_ipv4_connection_is_told_apart() {
    let home = Ip::V4(ip4(192, 168, 0, 2));
    let out = v4(203, 0, 113, 7, 4000);
    let tag = |result: &FamilyResult| describe_v4(result).tag;
    assert_eq!(tag(&empty(Family::V4)), "unreachable");
    assert_eq!(tag(&seen(Some(out.ip), [out, out])), "public");
    let shared = v4(100, 64, 0, 1, 4000);
    assert_eq!(tag(&seen(Some(home), [shared, shared])), "cgnat");
    let private = v4(10, 0, 0, 1, 4000);
    assert_eq!(tag(&seen(None, [private, private])), "double-nat");
    assert_eq!(tag(&seen(Some(home), [out, out])), "nat-endpoint-independent");
    let moved = v4(203, 0, 113, 7, 4001);
    let hard = seen(Some(home), [out, moved]);
    assert_eq!(tag(&hard), "nat-address-dependent");
    let notes = describe_v4(&hard).notes;
    assert_eq!(notes[0], "IPv4: this machine's own address is 192.168.0.2");
    assert_eq!(notes[1], "IPv4: the internet sees this machine as 203.0.113.7:4000");
    assert!(notes[2].contains("per destination (a:1 -> :4000, b:2 -> :4001). This is"));
    let mut one = FamilyResult::new(Family::V4);
    one.on_seen("a:1", Ip::V4(ip4(198, 51, 100, 1)), out);
    one.on_seen("b:2", Ip::V4(ip4(198, 51, 100, 1)), moved);
    assert_eq!(tag(&one), "nat-unclassified");
}

#[test]
fn only_an_untranslated_connection_may_relay() {
    let out = v4(203, 0, 113, 7, 4000);
    assert!(describe_v4(&seen(Some(out.ip), [out, out])).reachable);
    assert!(!describe_v4(&seen(None, [out, out])).reachable);
    // An address of the shared range is a carrier's, even as one's own.
    let shared = v4(100, 64, 0, 1, 4000);
    let carried = describe_v4(&seen(Some(shared.ip), [shared, shared]));
    assert_eq!((carried.tag.as_str(), carried.reachable), ("cgnat", false));
    assert!(!describe_v4(&empty(Family::V4)).reachable);
}

#[test]
fn a_global_ipv6_address_is_found_among_others() {
    let server = Ip::V6(ip6([0x2001, 0xdb8, 0, 0, 0, 0, 0, 9]));
    let mut result = FamilyResult::new(Family::V6);
    result.on_seen("a:1", server, v6([0xfe80, 0, 0, 0, 0, 0, 0, 1], 1));
    assert_eq!(describe_v6(&result).tag, "none");
    result.on_seen("b:2", server, v6([0x2001, 0xdb8, 0, 0, 0, 0, 0, 5], 2));
    let verdict = describe_v6(&result);
    assert_eq!((verdict.tag.as_str(), verdict.reachable), ("global", true));
    assert_eq!(verdict.notes[0], "IPv6: working, with the global address 2001:db8::5");
    let lines = report(&empty(Family::V4), &result);
    assert_eq!(
        lines.last().unwrap(),
        "PROBE v0.1 | ipv4=unreachable | ipv6=global | relay-candidate=yes"
    );
    assert_eq!(lines[0], "What this means");
    assert!(lines[2].starts_with("  IPv4: no STUN server could be reached."));
    let nobody = report(&empty(Family::V4), &empty(Family::V6));
    assert!(nobody.last().unwrap().ends_with("relay-candidate=no"));
}

#[test]
fn a_connectivity_record_letter_for_letter() {
    let mut result = FamilyResult::new(Family::V4);
    let line = result.on_seen("a:1", Ip::V4(ip4(198, 51, 100, 1)), v4(100, 64, 0, 1, 7));
    assert_eq!(line, format!("  {:<28} sees us as 100.64.0.1:7", "a:1"));
    let line = result.on_missed("a-server-with-a-name-longer-than-its-column:1", "no reply");
    assert_eq!(line, "  a-server-with-a-name-longer-than-its-column:1 no reply");
    result.local = Some(Ip::V4(ip4(192, 168, 0, 2)));
    let mut six = FamilyResult::new(Family::V6);
    six.on_no_socket("not \"today\"");
    assert_eq!(
        report_record("v\t1", &result, &six, 1_000_000_000),
        "{\"schema\":1,\"ts_unix\":1000000000,\"ts_utc\":\"2001-09-09T01:46:40Z\",\
         \"label\":\"v\\t1\",\"test\":\"connectivity\",\"ipv4\":{\"tag\":\"cgnat\",\
         \"local\":\"192.168.0.2\",\"observers\":[{\"server\":\"a:1\",\
         \"mapped\":\"100.64.0.1:7\"}],\
         \"errors\":[\"a-server-with-a-name-longer-than-its-column:1: no reply\"]},\
         \"ipv6\":{\"tag\":\"none\",\"local\":null,\"observers\":[],\
         \"errors\":[\"cannot open a IPv6 socket: not \\\"today\\\"\"]},\
         \"relay_candidate\":false}"
    );
    assert!(Family::V4.matches(&v4(1, 2, 3, 4, 5)));
    assert!(!Family::V6.matches(&v4(1, 2, 3, 4, 5)));
    assert_eq!((Family::V4.label(), Family::V6.label()), ("IPv4", "IPv6"));
}

#[test]
fn every_end_of_a_lifetime_test() {
    let first = v4(203, 0, 113, 7, 4000);
    let both = |second| {
        conclude(90, Found::Both { server: "s:1".into(), first, second })
    };
    assert_eq!(both(first).outcome, Outcome::Survived);
    assert_eq!(both(v4(203, 0, 113, 7, 4001)).outcome, Outcome::Expired);
    let moved = both(v4(203, 0, 113, 8, 4000));
    assert_eq!(moved.outcome, Outcome::Inconclusive("public address changed mid-test"));
    assert_eq!(
        conclude(1, Found::NoSocket).outcome,
        Outcome::Inconclusive("cannot open a socket")
    );
    assert_eq!(
        conclude(1, Found::NoServer).outcome,
        Outcome::Inconclusive("no STUN server answered")
    );
    let silent = conclude(1, Found::Silence { server: "s:1".into(), first });
    assert_eq!(silent.outcome, Outcome::Inconclusive("no reply to the second query"));
    assert_eq!((silent.first, silent.second), (Some(first), None));
}

#[test]
fn a_lifetime_test_is_told_and_recorded() {
    let first = v4(203, 0, 113, 7, 4000);
    let second = v4(203, 0, 113, 7, 4001);
    let test = conclude(90, Found::Both { server: "s:1".into(), first, second });
    assert_eq!(
        report_mapping(&test),
        [
            "",
            "After 90s of silence the router had forgotten this connection.\nA peer-to-peer connection left idle that long would have died without warning.",
            "  before: 203.0.113.7:4000\n  after:  203.0.113.7:4001",
            "",
            "PROBE-MAPPING v0.1 | idle=90s | outcome=expired",
        ]
    );
    let none = conclude(7, Found::NoServer);
    assert_eq!(report_mapping(&none)[1], "Inconclusive after 7s: no STUN server answered.");
    assert_eq!(report_mapping(&none).len(), 4);
    let same = conclude(90, Found::Both { server: "s:1".into(), first, second: first });
    assert_eq!(
        report_mapping(&same)[1],
        "After 90s of silence the router still remembered this connection."
    );
    assert_eq!(
        mapping_record("v", &test, 0),
        "{\"schema\":1,\"ts_unix\":0,\"ts_utc\":\"1970-01-01T00:00:00Z\",\"label\":\"v\",\
         \"test\":\"mapping-lifetime\",\"idle_seconds\":90,\"server\":\"s:1\",\
         \"first\":\"203.0.113.7:4000\",\"second\":\"203.0.113.7:4001\",\
         \"outcome\":\"expired\",\"note\":null}"
    );
}

#[test]
fn two_machines_meet_step_by_step() {
    let mut punch = Punch::new(60);
    assert!(punch.send_if_due(0));
    assert!(!punch.send_if_due(249_999_999));
    assert!(punch.send_if_due(250_000_000));
    assert!(punch.on_packet(false, punch_hello(), 1).is_empty());
    assert_eq!(punch.verdict(), Contact::NoContact);
    let moves = punch.on_packet(true, punch_hello(), 5);
    assert!(matches!(moves[..], [Move::Arrived(5), Move::Reply]));
    assert_eq!(punch.verdict(), Contact::InboundOnly);
    assert!(matches!(punch.on_packet(true, punch_hello(), 6)[..], [Move::Reply]));
    assert!(punch.continues(59_999_999_999));
    assert!(!punch.continues(60_000_000_000));
    assert!(punch.on_packet(true, b"MACHINE-ELVES-P", 7).is_empty());
    assert!(matches!(punch.on_packet(true, punch_reply(), 8)[..], [Move::Answered(8)]));
    assert!(punch.on_packet(true, punch_reply(), 9).is_empty());
    assert_eq!(punch.verdict(), Contact::TwoWay);
    assert!(!punch.continues(10));
    let mut outward = Punch::new(1);
    outward.on_packet(true, punch_reply(), 1);
    assert_eq!(outward.verdict(), Contact::OutboundOnly);
}

#[test]
fn a_meeting_is_told() {
    let (me, peer) = (v4(203, 0, 113, 7, 1), v4(203, 0, 113, 8, 2));
    assert_eq!(
        punch_summary(&me, &peer, Contact::TwoWay),
        "PUNCH v0.1 | me=203.0.113.7:1 | peer=203.0.113.8:2 | result=two-way"
    );
    let tags: Vec<&str> =
        [Contact::TwoWay, Contact::InboundOnly, Contact::OutboundOnly, Contact::NoContact]
            .iter()
            .map(|c| c.tag_text())
            .collect();
    assert_eq!(tags, ["two-way", "inbound-only", "outbound-only", "no-contact"]);
    assert_eq!(Contact::NoContact.lines().len(), 5);
    assert_eq!(Contact::NoContact.lines()[1], "");
    assert_eq!(Contact::OutboundOnly.lines()[1], "  one. A path exists, but only one way.");
    assert_eq!(arrived_line(&peer, 3).before, "  <- their packet arrived from 203.0.113.8:2 after ");
    assert_eq!(answered_line(3).before, "  -> they answered ours after ");
    assert!(on_refresh(&me, &me).is_none());
    assert_eq!(
        on_refresh(&me, &peer).unwrap(),
        "  !! the address changed to 203.0.113.8:2 — send them this one instead"
    );
    assert!(refresh_due(20_000_000_000) && !refresh_due(19_999_999_999));
}

#[test]
fn an_address_good_on_one_link_says_which() {
    let peer = Endpoint { scope: 3, ..v6([0xfe80, 0, 0, 0, 0, 0, 0, 1], 9) };
    assert_eq!(peer.text(), "[fe80::1%3]:9");
    assert_eq!(Endpoint { scope: 0, ..peer }.text(), "[fe80::1]:9");
    assert!(on_refresh(&peer, &Endpoint { scope: 0, ..peer }).is_some());
}

#[test]
fn earlier_instants_have_smaller_timestamps() {
    let instants = [
        0, 59, 60, 3_599, 3_600, 86_399, 86_400, 951_782_399, 951_782_400, 978_307_199,
        1_709_164_800, 4_107_542_399, 253_402_300_799,
    ];
    for pair in instants.windows(2) {
        let (before, after) = (format_utc(pair[0]), format_utc(pair[1]));
        assert!(before < after, "{before} and {after}");
        assert_eq!((before.len(), after.len()), (20, 20));
        assert!(before.is_ascii() && after.is_ascii());
    }
    assert!(format_utc(253_402_300_800) < format_utc(253_402_300_799));
}

/// What stands in a JSON string, read back.
fn read_back(text: &str) -> String {
    let inside = text.strip_prefix('"').and_then(|t| t.strip_suffix('"')).expect("in quotes");
    let mut read = String::new();
    let mut rest = inside.chars();
    while let Some(c) = rest.next() {
        assert!(c != '"' && c >= ' ', "not escaped: {c:?}");
        if c != '\\' {
            read.push(c);
            continue;
        }
        read.push(match rest.next().expect("an escape") {
            'n' => '\n',
            'r' => '\r',
            't' => '\t',
            'u' => {
                let digits: String = rest.by_ref().take(4).collect();
                char::from_u32(u32::from_str_radix(&digits, 16).expect("digits")).expect("a char")
            }
            c => c,
        });
    }
    read
}

#[test]
fn what_is_quoted_can_be_read_back() {
    for raw in ["", "plain", "a\"b\\c", "\n\r\t\u{0}\u{1f}\u{7f}", "\\u0041", "żółw — 🐢"] {
        assert_eq!(read_back(&json_string(raw)), raw);
        assert_eq!(read_back(&quote(raw, true)), raw);
        assert_eq!(read_back(&quote(raw, false)), raw);
    }
}

#[test]
fn the_probe_is_told_what_to_do() {
    let told = |args: &[&str]| {
        let words: Vec<String> = args.iter().map(|a| a.to_string()).collect();
        let endpoints: Vec<Option<Endpoint>> =
            args.iter().map(|a| (*a == "1.2.3.4:5").then_some(v4(1, 2, 3, 4, 5))).collect();
        parse_probe_args(&words, &endpoints)
    };
    let config = told(&[
        "--json", "--label", "v", "--mapping-lifetime", "--punch", "--peer", "1.2.3.4:5",
        "--idle", "9",
    ])
    .expect("reads")
    .expect("no help");
    assert_eq!((config.json, config.mapping_lifetime, config.punch), (true, true, true));
    assert_eq!((config.label.as_str(), config.idle), ("v", Some(9)));
    assert_eq!(config.peer, Some(v4(1, 2, 3, 4, 5)));
    assert_eq!(config.punch_seconds(), 9);
    let plain = told(&[]).expect("reads").expect("no help");
    assert_eq!((plain.label.as_str(), plain.punch_seconds()), ("unlabelled", 60));
    let bare = told(&["--json", "--label"]).expect("reads").expect("no help");
    assert_eq!((bare.label.as_str(), bare.json), ("unlabelled", true));
    assert!(told(&["-h", "--frob"]).expect("reads").is_none());
    let refused = |args: &[&str]| match told(args) {
        Ok(_) => panic!("accepted"),
        Err(error) => error.message(),
    };
    assert_eq!(refused(&["--peer", "x"]), "--peer needs an address:port");
    assert_eq!(refused(&["--idle"]), "--idle needs a number of seconds");
    assert_eq!(refused(&["--frob"]), "unknown argument: --frob");
}
