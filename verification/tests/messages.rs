//! What nodes say to one another.
use machine_elves::message::{
    encode_checkpoint, encode_departing, encode_heartbeat, encode_observed, parse_message,
    put_str, take_bytes, take_u32, take_u64, Message, KIND_HEARTBEAT, KIND_OBSERVED,
};
use machine_elves::peer::{Address, PeerId};

fn peer() -> PeerId {
    PeerId::from_bytes(&libp2p::PeerId::random().to_bytes()).expect("a peer")
}

#[test]
fn messages_survive_a_round_trip() {
    assert_eq!(
        parse_message(&encode_heartbeat("diamond", 42)),
        Some(Message::Heartbeat { label: "diamond".into() })
    );
    assert_eq!(
        parse_message(&encode_departing("diamond")),
        Some(Message::Departing { label: "diamond".into() })
    );
    assert_eq!(
        parse_message(&encode_checkpoint("diamond", 7, b"opaque")),
        Some(Message::Checkpoint { label: "diamond".into(), tick: 7, state: b"opaque".to_vec() })
    );
}

#[test]
fn checkpoints_carry_bytes_that_are_not_text() {
    // State is opaque, so the wire format has to survive anything a job
    // chooses to put in it, the reason this is framed rather than delimited.
    let state: Vec<u8> = (0u8..=255).collect();
    let parsed = parse_message(&encode_checkpoint("n", 1, &state)).expect("parses");
    assert_eq!(parsed, Message::Checkpoint { label: "n".into(), tick: 1, state });
}

#[test]
fn ignores_messages_it_does_not_understand() {
    // A later version publishing a new kind must not be mistaken for a
    // heartbeat, which would make a departed node look present.
    assert_eq!(parse_message(&[]), None);
    assert_eq!(parse_message(&[KIND_HEARTBEAT]), None);
    assert_eq!(parse_message(&[99, 1, 0, 0, 0, b'x']), None);
    // A length claiming more than the message holds.
    assert_eq!(parse_message(&[KIND_HEARTBEAT, 255, 0, 0, 0, b'x']), None);
}

#[test]
fn a_goodbye_is_never_mistaken_for_a_heartbeat() {
    // The whole distinction between a few milliseconds and a full detection
    // window rests on these two never being confused.
    assert!(matches!(
        parse_message(&encode_departing("beta")),
        Some(Message::Departing { .. })
    ));
}

#[test]
fn observations_survive_a_round_trip() {
    let peer = peer();
    let addr = Address::parse("/ip4/203.0.113.7/udp/4001/quic-v1").expect("an address");
    assert_eq!(
        parse_message(&encode_observed("n", &peer, &addr)),
        Some(Message::Observed { label: "n".into(), peer, addr })
    );
}

#[test]
fn an_observation_of_nobody_or_nowhere_is_ignored() {
    let mut nobody = vec![KIND_OBSERVED];
    put_str(&mut nobody, "n");
    put_str(&mut nobody, "no peer");
    put_str(&mut nobody, "/ip4/203.0.113.7/tcp/1");
    assert_eq!(parse_message(&nobody), None);

    let mut nowhere = vec![KIND_OBSERVED];
    put_str(&mut nowhere, "n");
    let id = peer().to_bytes();
    nowhere.extend_from_slice(&(id.len() as u32).to_le_bytes());
    nowhere.extend_from_slice(&id);
    put_str(&mut nowhere, "nowhere");
    assert_eq!(parse_message(&nowhere), None);
}

#[test]
fn an_empty_or_garbled_label_is_ignored() {
    assert_eq!(parse_message(&encode_heartbeat("", 1)), None);
    assert_eq!(parse_message(&[KIND_HEARTBEAT, 1, 0, 0, 0, 0xff]), None);
}

#[test]
fn a_heartbeat_byte_for_byte() {
    assert_eq!(
        encode_heartbeat("ab", 258),
        [1, 2, 0, 0, 0, b'a', b'b', 2, 1, 0, 0, 0, 0, 0, 0]
    );
    assert_eq!(encode_departing("a"), [2, 1, 0, 0, 0, b'a']);
    assert_eq!(
        encode_checkpoint("a", 3, &[9]),
        [3, 1, 0, 0, 0, b'a', 3, 0, 0, 0, 0, 0, 0, 0, 1, 0, 0, 0, 9]
    );
}

#[test]
fn taking_moves_on_only_where_all_is_there() {
    let bytes = [1, 0, 0, 0, 2, 0, 0, 0, 0, 0, 0, 0, 1, 0, 0, 0, 7];
    let mut at = 0;
    assert_eq!(take_u32(&bytes, &mut at), Some(1));
    assert_eq!(take_u64(&bytes, &mut at), Some(2));
    assert_eq!(take_bytes(&bytes, &mut at), Some(vec![7]));
    assert_eq!(at, bytes.len());
    assert_eq!(take_u32(&bytes, &mut at), None);
    assert_eq!(at, bytes.len());
    let mut far = usize::MAX - 2;
    assert_eq!(take_u64(&bytes, &mut far), None);
    assert_eq!(far, usize::MAX - 2);
}

#[test]
fn peers_are_written_and_ordered_as_the_network_does() {
    for _ in 0..20 {
        let (x, y) = (libp2p::PeerId::random(), libp2p::PeerId::random());
        let a = PeerId::from_bytes(&x.to_bytes()).expect("a peer");
        let b = PeerId::from_bytes(&y.to_bytes()).expect("a peer");
        assert_eq!(a.to_bytes(), x.to_bytes());
        assert_eq!(a.text(), x.to_base58());
        assert_eq!(a.before(&b), x < y);
        assert_eq!(a < b, x < y);
        assert_eq!(a == b, x == y);
        assert!(a.same(&a));
    }
    assert_eq!(PeerId::from_bytes(&[]), None);
    assert_eq!(PeerId::from_bytes(&[0x13, 0]), None);
    // An inlined key may have forty-two bytes and no more.
    let mut inlined = vec![0u8, 42];
    inlined.extend_from_slice(&[5; 42]);
    assert_eq!(PeerId::from_bytes(&inlined).expect("a peer").to_bytes(), inlined);
    let mut long = vec![0u8, 43];
    long.extend_from_slice(&[5; 43]);
    assert_eq!(PeerId::from_bytes(&long), None);
}

#[test]
fn addresses_have_one_printed_form() {
    let addr = Address::parse("/ip6/2001:db8:0:0::1/tcp/+80").expect("an address");
    assert_eq!(addr.text(), "/ip6/2001:db8::1/tcp/80");
    let again = Address::parse(addr.text()).expect("an address");
    assert!(addr.same(&again));
    assert_eq!(addr.clone().text(), addr.text());
    assert_eq!(
        Address::parse("/nowhere").unwrap_err(),
        "/nowhere".parse::<libp2p::Multiaddr>().unwrap_err().to_string()
    );
}
