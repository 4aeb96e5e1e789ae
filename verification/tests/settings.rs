//! What a node is told.
use machine_elves::event::json_string;
use machine_elves::portmap::{
    default_gateway, release, request, Answer, Mapping, PortError, Step, LIFETIME_SECS,
    RENEW_EVERY_SECS,
};
use machine_elves::settings::{
    heartbeat_topic, label_from, parse_args, parse_local_run, Config, DEFAULT_DETECT_MS,
    DEFAULT_HEARTBEAT_MS, DEFAULT_KEEPALIVE_MS,
};
use std::time::Duration;

fn words(args: &[&str]) -> Vec<String> {
    args.iter().map(|a| a.to_string()).collect()
}

fn told(args: &[&str]) -> Config {
    match parse_args("host".into(), &words(args)) {
        Ok(Some(config)) => config,
        Ok(None) => panic!("help"),
        Err(error) => panic!("{}", error.message()),
    }
}

fn refused(args: &[&str]) -> String {
    match parse_args("host".into(), &words(args)) {
        Ok(_) => panic!("accepted"),
        Err(error) => error.message(),
    }
}

#[test]
fn the_keepalive_leaves_margin_on_the_worst_measured_connection() {
    // The mobile connection tested forgot an idle mapping between 120s and
    // 300s. A keepalive without real margin is one dropped packet away from
    // a connection that dies with no error anywhere.
    let keepalive = Duration::from_millis(DEFAULT_KEEPALIVE_MS);
    let shortest_confirmed_safe = Duration::from_secs(120);
    assert!(keepalive * 2 <= shortest_confirmed_safe);
}

#[test]
fn keepalive_and_heartbeat_are_separate_settings() {
    // They serve opposite needs (detection wants frequent, mapping upkeep
    // wants rare) and collapsing them means one silently loses.
    assert!(
        Duration::from_millis(DEFAULT_KEEPALIVE_MS)
            > Duration::from_millis(DEFAULT_HEARTBEAT_MS) * 10
    );
}

#[test]
fn different_meshes_never_share_a_topic() {
    // Two meshes on one network must not find each other. Without this a
    // leftover process from an earlier run joins the next one and quietly
    // changes its results.
    assert_ne!(heartbeat_topic("alpha"), heartbeat_topic("beta"));
    assert!(heartbeat_topic("shangri-la").contains("shangri-la"));
    assert_eq!(heartbeat_topic("alpha"), "machine-elves/alpha/heartbeat/0.1");
}

#[test]
fn escapes_json_strings() {
    assert_eq!(json_string("a\"b"), "\"a\\\"b\"");
    assert_eq!(json_string("tab\there"), "\"tab\\u0009here\"");
}

#[test]
fn every_escape_of_a_node() {
    assert_eq!(json_string("\\\n\r\u{1f}\u{20}é"), "\"\\\\\\n\\u000d\\u001f é\"");
    assert_eq!(json_string(""), "\"\"");
}

#[test]
fn heartbeat_must_leave_room_for_a_lost_packet() {
    // Guards the invariant that reading the settings enforces: at least two
    // heartbeats must fit inside the detection window, so one dropped packet
    // cannot make a healthy machine look dead.
    let heartbeat = Duration::from_millis(DEFAULT_HEARTBEAT_MS);
    let detect = Duration::from_millis(DEFAULT_DETECT_MS);
    assert!(heartbeat * 2 <= detect);
}

#[test]
fn told_nothing_a_node_has_its_defaults() {
    let config = told(&[]);
    assert_eq!(config.label, "host");
    let listen: Vec<&str> = config.listen.iter().map(|a| a.text()).collect();
    assert_eq!(
        listen,
        [
            "/ip4/0.0.0.0/udp/4001/quic-v1",
            "/ip4/0.0.0.0/tcp/4001",
            "/ip6/::/udp/4001/quic-v1",
            "/ip6/::/tcp/4001"
        ]
    );
    assert!(config.dial.is_empty() && config.job.is_none());
    assert_eq!((config.heartbeat_ms, config.detect_ms), (1000, 3000));
    assert_eq!((config.job_tick_ms, config.keepalive_ms), (200, 55000));
    assert_eq!((config.mesh.as_str(), config.port), ("default", 4001));
    assert_eq!((config.json, config.map_port, config.mdns, config.own), (false, true, true, false));
}

#[test]
fn every_word_is_heeded() {
    let config = told(&[
        "--label", "n", "--listen", "/ip4/127.0.0.1/tcp/1", "--peer", "/ip4/192.0.2.1/tcp/2",
        "--peer", "/dns4/a.example/tcp/3", "--heartbeat-ms", "10", "--detect-ms", "20", "--json",
        "--job", "j.wasm", "--mesh", "m", "--port", "+9", "--keepalive-ms", "30", "--own",
        "--no-mdns", "--no-map-port", "--job-tick-ms", "40",
    ]);
    assert_eq!((config.label.as_str(), config.mesh.as_str()), ("n", "m"));
    assert_eq!(config.listen.len(), 1);
    assert_eq!(config.listen[0].text(), "/ip4/127.0.0.1/tcp/1");
    assert_eq!(config.dial[1].text(), "/dns4/a.example/tcp/3");
    assert_eq!((config.heartbeat_ms, config.detect_ms), (10, 20));
    assert_eq!((config.keepalive_ms, config.job_tick_ms, config.port), (30, 40, 9));
    assert_eq!(config.job.as_deref(), Some("j.wasm"));
    assert_eq!((config.json, config.map_port, config.mdns, config.own), (true, false, false, true));
}

#[test]
fn every_refusal_says_why() {
    assert_eq!(refused(&["--label"]), "--label needs a name");
    assert_eq!(refused(&["--json", "--port"]), "--port needs a number");
    assert_eq!(refused(&["--frob"]), "unknown argument: --frob");
    assert_eq!(refused(&["--port", ""]), "cannot parse integer from empty string");
    assert_eq!(refused(&["--port", "-1"]), "invalid digit found in string");
    assert_eq!(refused(&["--port", "65536"]), "number too large to fit in target type");
    assert_eq!(
        refused(&["--detect-ms", "18446744073709551616x"]),
        "number too large to fit in target type"
    );
    assert_eq!(
        refused(&["--heartbeat-ms", "1501"]),
        "heartbeat (1.501s) must be at most half the detection threshold (3s), or a single lost \
         packet looks like a dead machine"
    );
    assert!(!refused(&["--peer", "nowhere"]).is_empty());
}

#[test]
fn numbers_fail_as_they_always_do() {
    for text in ["", "+", "-", "-5", "+5", "5", "007", "1x", "x1", "255", "256", "256x", "25x6",
        "99999999999999999999999x", " 1", "1 "]
    {
        let ours = parse_args("h".into(), &words(&["--port", text])).map(|c| c.map(|c| c.port));
        match (ours, text.parse::<u16>()) {
            (Ok(Some(port)), Ok(n)) => assert_eq!(port, n),
            (Err(error), Err(e)) => assert_eq!(error.message(), e.to_string(), "{text:?}"),
            _ => panic!("disagree on {text:?}"),
        }
    }
}

#[test]
fn help_is_given_before_anything_else_is_looked_at() {
    for help in ["--help", "-h"] {
        let args = words(&["--json", help, "--frob"]);
        assert!(matches!(parse_args("h".into(), &args), Ok(None)));
    }
}

#[test]
fn a_local_run_is_asked_for_by_path() {
    let asked = |args: &[&str]| match parse_local_run(&words(args)) {
        Ok(found) => found,
        Err(error) => Some((error.message(), 0)),
    };
    assert_eq!(asked(&["node", "--json"]), None);
    assert_eq!(asked(&["node", "--run-job", "a"]), Some(("a".into(), 20)));
    assert_eq!(asked(&["node", "--ticks", "3", "--run-job", "a"]), Some(("a".into(), 3)));
    assert_eq!(asked(&["node", "--run-job", "a", "--ticks"]), Some(("a".into(), 20)));
    assert_eq!(
        asked(&["node", "--run-job"]),
        Some(("--run-job needs a path to a .wasm".into(), 0))
    );
    assert_eq!(
        asked(&["node", "--run-job", "a", "--ticks", "x"]),
        Some(("invalid digit found in string".into(), 0))
    );
}

#[test]
fn a_node_without_a_name_takes_that_of_its_machine() {
    assert_eq!(label_from(Some(" box\n".into())), "box");
    assert_eq!(label_from(None), "unlabelled");
}

#[test]
fn renewal_leaves_room_for_failures() {
    // Renewing at the last moment makes one lost packet fatal. Three
    // attempts should fit inside a mapping's life.
    let lifetime = Duration::from_secs(LIFETIME_SECS as u64);
    assert!(Duration::from_secs(RENEW_EVERY_SECS) * 3 <= lifetime);
}

#[test]
fn a_gateway_is_read_from_the_routing_table() {
    let table = "Iface\tDestination\tGateway\tFlags\n\
                 eth0\t0000A8C0\t00000000\t0001\n\
                 eth0\t00000000\t0100A8C0\t0003\n\
                 eth1\t00000000\t0200A8C0\t0003\n";
    let gateway = default_gateway(table).expect("a gateway");
    assert_eq!(gateway.text(), "192.168.0.1");
    assert!(gateway.text() != "0.0.0.0", "read a nonsense gateway");
    assert_eq!(default_gateway(""), None);
    assert_eq!(default_gateway("eth0\t00000000\t0100A8C0\n"), None);
    assert_eq!(default_gateway("head\neth0\t00000000\tzz\n"), None);
}

fn said(step: Step) -> Result<Mapping, PortError> {
    match step {
        Step::Agreed(mapping) => Ok(mapping),
        Step::Failed(error) => Err(error),
        Step::Ask(_) => panic!("asked again"),
    }
}

#[test]
fn a_router_is_asked_for_its_address_and_then_for_a_port() {
    let (mut exchange, first) = request(4001, 3600);
    assert_eq!(first, [0, 0]);
    let address = vec![0, 128, 0, 0, 0, 0, 0, 0, 203, 0, 113, 7];
    match exchange.on_answer(Answer::Reply(address)) {
        Step::Ask(bytes) => {
            assert_eq!(bytes, [0, 1, 0, 0, 0x0f, 0xa1, 0x0f, 0xa1, 0, 0, 0x0e, 0x10]);
        }
        _ => panic!("not asked"),
    }
    let reply = vec![0, 129, 0, 0, 0, 0, 0, 0, 0x0f, 0xa1, 0x0f, 0xa2, 0, 0, 0x0e, 0x11];
    let mapping = said(exchange.on_answer(Answer::Reply(reply))).expect("agreed");
    assert_eq!(mapping.external_ip.text(), "203.0.113.7");
    assert_eq!((mapping.external_port, mapping.lifetime), (4002, 3601));
}

#[test]
fn every_way_to_have_no_mapping() {
    let reply = |code: u16| {
        let mut reply = vec![0, 129];
        reply.extend_from_slice(&code.to_be_bytes());
        reply.extend_from_slice(&[0; 12]);
        reply
    };
    let asked = || {
        let (mut exchange, _) = release(4001);
        let address = vec![0, 128, 0, 0, 0, 0, 0, 0, 203, 0, 113, 7];
        exchange.on_answer(Answer::Reply(address));
        exchange
    };
    let (mut silent, _) = request(1, 2);
    assert!(matches!(silent.on_answer(Answer::Nothing), Step::Ask(_)));
    assert!(matches!(silent.on_answer(Answer::Nothing), Step::Ask(_)));
    let error = said(silent.on_answer(Answer::Nothing)).unwrap_err();
    assert_eq!(
        error.message(),
        "the router did not answer — it may not speak NAT-PMP, or may have it switched off"
    );
    let (mut rude, _) = request(1, 2);
    let error = said(rude.on_answer(Answer::Reply(vec![0, 128, 0, 1, 0, 0, 0, 0, 1, 2, 3, 4])));
    assert_eq!(error.unwrap_err().message(), "the router would not say its address");
    let error = said(asked().on_answer(Answer::Reply(vec![0; 16]))).unwrap_err();
    assert_eq!(error.message(), "the router gave no usable answer");
    let error = said(asked().on_answer(Answer::Reply(reply(2)))).unwrap_err();
    assert_eq!(error.message(), "the router refused: code 2");
    assert!(said(asked().on_answer(Answer::Reply(reply(0)))).is_ok());
    assert_eq!(PortError::NoRoute.message(), "no default route");
}

#[test]
fn a_default_route_that_names_no_gateway_is_passed_over() {
    // A VPN's default route is on the link itself and names nobody to ask.
    let both = "Iface\tDestination\tGateway\tFlags\n\
                wg0\t00000000\t00000000\t0001\n\
                eth0\t00000000\t0100A8C0\t0003\n";
    assert_eq!(default_gateway(both).expect("a gateway").text(), "192.168.0.1");
    let alone = "Iface\tDestination\tGateway\tFlags\n\
                 wg0\t00000000\t00000000\t0001\n";
    assert_eq!(default_gateway(alone), None);
}
