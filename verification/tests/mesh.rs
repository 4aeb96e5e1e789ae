//! Who runs the job, and what a node does about what happens.
use machine_elves::addr::Ip4;
use machine_elves::event::event_line;
use machine_elves::job::{Job, JobError, Outcome, DEFAULT_FUEL};
use machine_elves::message::{
    encode_checkpoint, encode_departing, encode_heartbeat, encode_observed,
};
use machine_elves::node::{on_dial_failed, Action, Node};
use machine_elves::notice::{departing, job_loaded, round_trip, started, Report, Timing};
use machine_elves::peer::{Address, PeerId};
use machine_elves::peermap::PeerMap;
use machine_elves::portmap::Mapping;
use machine_elves::work::{read_production, Member, Work};
use std::time::Duration;

const SECOND: u128 = 1_000_000_000;

fn random_peer() -> PeerId {
    PeerId::from_bytes(&libp2p::PeerId::random().to_bytes()).expect("a peer")
}

fn member(label: &str) -> Member {
    Member { label: label.into(), joined: 0, last_heard: 0, disconnected: false }
}

fn address(text: &str) -> Address {
    Address::parse(text).expect("an address")
}

/// Two peers, the lower one first.
fn two_peers() -> (PeerId, PeerId) {
    let (a, b) = (random_peer(), random_peer());
    if a.before(&b) {
        (a, b)
    } else {
        (b, a)
    }
}

/// A job that answers with no state and one effect.
const JOB: &str = r#"(module (memory (export "memory") 1)
    (data (i32.const 100) "\01\00\00\00S\0a\00\00\00produce x2")
    (func (export "alloc") (param i32) (result i32) i32.const 0)
    (func (export "tick") (param i32 i32) (result i64) i64.const 0x0000006400000013))"#;

fn job() -> Option<Job> {
    Some(Job::load(JOB.as_bytes(), DEFAULT_FUEL).expect("loads"))
}

fn node(me: PeerId, job: Option<Job>, own: bool) -> Node {
    Node::new("me".into(), 4001, true, 3000, me, Vec::new(), job, own, 0)
}

fn kinds(actions: &[Action]) -> Vec<String> {
    actions
        .iter()
        .map(|a| match a {
            Action::Publish(_) => "publish".to_string(),
            Action::Dial(addr) => format!("dial {}", addr.text()),
            Action::Introduce(_) => "introduce".to_string(),
            Action::Report(report) => report.kind.clone(),
        })
        .collect()
}

fn only_report(actions: &[Action]) -> &Report {
    match actions {
        [Action::Report(report)] => report,
        _ => panic!("not one report: {:?}", kinds(actions)),
    }
}

#[test]
fn the_lowest_peer_identifier_takes_over_and_only_that_one() {
    // Every survivor runs this against the same membership, so exactly one
    // of them may answer yes; otherwise the job is either dropped by all
    // of them or picked up by all of them.
    let peers: Vec<PeerId> = (0..5).map(|_| random_peer()).collect();
    let mut sorted = peers.clone();
    sorted.sort();

    let mut winners = 0;
    for me in &peers {
        let mut others: PeerMap<Member> = PeerMap::new();
        for p in peers.iter().filter(|p| *p != me) {
            others.insert(*p, member("peer"));
        }
        if Work::should_take_over(me, &others) {
            winners += 1;
            assert_eq!(me, &sorted[0], "the wrong node volunteered");
        }
    }
    assert_eq!(winners, 1, "exactly one node must take over");
}

#[test]
fn the_node_further_along_keeps_the_job() {
    let a = random_peer();
    let b = random_peer();
    // Whoever has done more work keeps it: their ticks are the ones that
    // would be thrown away.
    assert!(Work::theirs((10, &a), (12, &b)), "behind, should yield");
    assert!(!Work::theirs((12, &a), (10, &b)), "ahead, should keep");
}

#[test]
fn a_tie_is_broken_the_same_way_on_both_machines() {
    // The rule matters more than the winner. If the two sides disagree,
    // either both yield and the job stops, or neither does and it runs
    // twice for as long as the disagreement lasts.
    let mut peers = vec![random_peer(), random_peer()];
    peers.sort();
    let (low, high) = (&peers[0], &peers[1]);
    assert!(Work::theirs((5, high), (5, low)), "high yields to low");
    assert!(!Work::theirs((5, low), (5, high)), "low keeps it");
}

#[test]
fn a_node_that_somehow_sees_itself_is_still_eligible() {
    // Self-discovery over the local network put a node in its own
    // membership list, and `me < me` being false made it permanently
    // unable to continue a job, with no error anywhere to show for it.
    let me = random_peer();
    let mut members = PeerMap::new();
    members.insert(me, member("me"));
    assert!(Work::should_take_over(&me, &members));
}

#[test]
fn a_lone_survivor_takes_over() {
    // The last node standing has nobody to lose the comparison to, and the
    // job should continue rather than stop because no election was possible.
    assert!(Work::should_take_over(&random_peer(), &PeerMap::new()));
}

#[test]
fn a_newcomer_is_answered_at_once_and_then_only_noticed() {
    let (me, them) = two_peers();
    let mut node = node(me, None, false);
    let hello = encode_heartbeat("beta", 1);
    let actions = node.on_message(Some(them), &hello, SECOND, &[]);
    assert_eq!(kinds(&actions), ["joined", "publish"]);
    match &actions[1] {
        Action::Publish(bytes) => assert_eq!(*bytes, encode_heartbeat("me", 1)),
        _ => panic!("not published"),
    }
    assert!(node.on_message(Some(them), &hello, 2 * SECOND, &[]).is_empty());
    // Nobody signed it, this node sent it, or it is not understood.
    assert!(node.on_message(None, &hello, SECOND, &[]).is_empty());
    assert!(node.on_message(Some(me), &hello, SECOND, &[]).is_empty());
    assert!(node.on_message(Some(them), b"?", SECOND, &[]).is_empty());
}

#[test]
fn silence_is_noticed_and_not_before_time() {
    let (me, them) = two_peers();
    let mut node = node(me, None, false);
    node.on_message(Some(them), &encode_heartbeat("beta", 1), SECOND, &[]);
    assert!(node.on_sweep(4 * SECOND).is_empty());
    let actions = node.on_sweep(4 * SECOND + 1);
    let report = only_report(&actions);
    assert_eq!(report.kind, "vanished");
    assert_eq!(report.timing, Timing::Seconds(3 * SECOND + 1));
    assert_eq!(report.prose("3.0"), "beta vanished — 3.0s of silence, no goodbye");
    assert_eq!(report.fields[2], ("silent_ms".to_string(), "3000".to_string()));
    assert!(node.on_sweep(9 * SECOND).is_empty());
}

#[test]
fn a_goodbye_needs_no_waiting() {
    let (me, them) = two_peers();
    let mut node = node(me, None, false);
    // A stranger's goodbye says nothing.
    assert!(node.on_message(Some(them), &encode_departing("beta"), SECOND, &[]).is_empty());
    node.on_message(Some(them), &encode_heartbeat("beta", 1), SECOND, &[]);
    let actions = node.on_message(Some(them), &encode_departing("beta"), 3 * SECOND, &[]);
    let report = only_report(&actions);
    assert_eq!(report.before, "beta left, announced");
    assert_eq!(report.fields[2], ("was_present_ms".to_string(), "2000".to_string()));
    assert!(node.on_sweep(100 * SECOND).is_empty());
}

#[test]
fn a_node_told_to_run_the_job_listens_first() {
    let (me, them) = two_peers();
    let mut mine = node(me, job(), true);
    assert!(!mine.is_due(9 * SECOND - 1));
    assert!(mine.on_job_tick(9 * SECOND - 1).is_empty());
    assert!(mine.is_due(9 * SECOND));
    let actions = mine.on_job_tick(9 * SECOND);
    assert_eq!(kinds(&actions), ["claimed", "effect", "produced", "publish"]);
    match &actions[3] {
        Action::Publish(bytes) => assert_eq!(*bytes, encode_checkpoint("me", 1, b"S")),
        _ => panic!("not published"),
    }
    match &actions[2] {
        Action::Report(report) => {
            assert_eq!(report.before, "1 x2, 1 new — 1 in the ledger");
        }
        _ => panic!("not reported"),
    }

    // Somebody else answered for the work, so there is nothing to claim.
    let mut second = node(me, job(), true);
    second.on_message(Some(them), &encode_checkpoint("beta", 5, b"T"), SECOND, &[]);
    assert!(second.on_job_tick(100 * SECOND).is_empty());
}

#[test]
fn two_nodes_running_the_job_become_one() {
    let (low, high) = two_peers();
    let mut a = node(low, job(), true);
    let mut b = node(high, job(), true);
    a.on_job_tick(9 * SECOND);
    b.on_job_tick(9 * SECOND);
    let to_a = a.on_message(Some(high), &encode_checkpoint("b", 1, b"S"), 10 * SECOND, &[]);
    let to_b = b.on_message(Some(low), &encode_checkpoint("a", 1, b"S"), 10 * SECOND, &[]);
    assert_eq!(kinds(&to_a), ["joined", "publish"], "the low one keeps it");
    assert_eq!(kinds(&to_b), ["joined", "publish", "yielded"]);
    assert!(a.is_due(10 * SECOND));
    assert!(!b.is_due(10 * SECOND));
}

#[test]
fn a_late_checkpoint_does_not_undo_work() {
    let (me, them) = two_peers();
    let mut node = node(me, job(), false);
    node.on_message(Some(them), &encode_checkpoint("b", 9, b"new"), SECOND, &[]);
    node.on_message(Some(them), &encode_checkpoint("b", 8, b"old"), SECOND, &[]);
    let actions = node.on_message(Some(them), &encode_departing("b"), 2 * SECOND, &[]);
    assert_eq!(kinds(&actions), ["left", "took-over"]);
    match &actions[1] {
        Action::Report(report) => {
            assert_eq!(report.prose("0"), "continuing the job from tick 9 — 0 ms after noticing");
            assert_eq!(report.fields[2], ("state_bytes".to_string(), "3".to_string()));
            assert_eq!(report.fields[3], ("survivors".to_string(), "1".to_string()));
        }
        _ => panic!("not reported"),
    }
}

#[test]
fn work_whose_owner_vanished_goes_to_the_lowest() {
    let (low, high) = two_peers();
    let third = random_peer();
    let mut a = node(low, job(), false);
    a.on_message(Some(third), &encode_checkpoint("c", 3, b"S"), SECOND, &[]);
    a.on_message(Some(high), &encode_heartbeat("b", 1), 5 * SECOND, &[]);
    assert_eq!(kinds(&a.on_sweep(5 * SECOND)), ["vanished", "took-over"]);
    assert!(a.is_due(5 * SECOND));

    let mut b = node(high, job(), false);
    b.on_message(Some(third), &encode_checkpoint("c", 3, b"S"), SECOND, &[]);
    b.on_message(Some(low), &encode_heartbeat("a", 1), 5 * SECOND, &[]);
    assert_eq!(kinds(&b.on_sweep(5 * SECOND)), ["vanished"]);
    assert!(!b.is_due(5 * SECOND));
}

#[test]
fn a_failing_job_is_given_up() {
    let me = random_peer();
    let mut node = node(me, job(), true);
    node.on_job_tick(9 * SECOND);
    let actions = node.on_tick_result(Err(JobError::Exhausted { fuel: 7 }));
    let report = only_report(&actions);
    assert_eq!(report.before, "job exhausted its 7 fuel and was stopped");
    assert!(!node.is_due(10 * SECOND));
}

#[test]
fn the_same_production_is_not_new_twice() {
    let me = random_peer();
    let mut node = node(me, job(), true);
    let made = |effects: &str| {
        Ok(Outcome { state: vec![], effects: effects.as_bytes().to_vec(), fuel_used: 1 })
    };
    let actions = node.on_tick_result(made("produce widget 2\nproduce widget 3\nidle"));
    assert_eq!(
        kinds(&actions),
        ["effect", "effect", "effect", "produced", "produced", "publish"]
    );
    match (&actions[3], &actions[4]) {
        (Action::Report(first), Action::Report(second)) => {
            assert_eq!(first.before, "2 widget, 2 new — 2 in the ledger");
            assert_eq!(second.before, "3 widget, 1 new — 3 in the ledger");
        }
        _ => panic!("not reported"),
    }
}

#[test]
fn productions_are_read_word_by_word() {
    assert_eq!(read_production("produce widget 2"), Some(("widget".into(), 2)));
    assert_eq!(read_production("  produce\twidget"), Some(("widget".into(), 1)));
    assert_eq!(read_production("produce widget many"), Some(("widget".into(), 1)));
    assert_eq!(read_production("produce widget 4294967296"), Some(("widget".into(), 1)));
    assert_eq!(read_production("produce widget 0"), Some(("widget".into(), 0)));
    assert_eq!(read_production("produce"), None);
    assert_eq!(read_production("request steel 40"), None);
}

#[test]
fn a_reached_address_is_remembered_and_dialled_again_when_lost() {
    let (me, them) = two_peers();
    let addr = address("/ip4/198.51.100.1/tcp/4001");
    let mut node = Node::new(
        "me".into(),
        4001,
        true,
        3000,
        me,
        vec![addr.clone()],
        None,
        false,
        0,
    );
    assert!(node.has_pending());
    assert_eq!(
        kinds(&node.on_dial_retry()),
        ["dial /ip4/198.51.100.1/tcp/4001", "dialling"]
    );
    for _ in 2..15 {
        assert_eq!(node.on_dial_retry().len(), 1);
    }
    assert_eq!(node.on_dial_retry().len(), 2);
    let reached = address("/ip4/203.0.113.9/tcp/9");
    let actions = node.on_connected(them, Some(addr.clone()), reached.clone());
    assert_eq!(kinds(&actions), ["connected", "all-reached", "publish"]);
    match &actions[2] {
        Action::Publish(bytes) => assert_eq!(*bytes, encode_observed("me", &them, &reached)),
        _ => panic!("not published"),
    }
    assert!(!node.has_pending());
    assert_eq!(node.on_announce().len(), 1);

    assert!(node.on_closed(&them, 1).is_empty());
    let actions = node.on_closed(&them, 0);
    let report = only_report(&actions);
    assert_eq!(report.before, "lost a peer; trying its 1 known address(es) again");
    assert!(node.has_pending());
    assert!(node.on_announce().is_empty());
    // Already pending, so losing it again changes nothing.
    assert!(node.on_closed(&them, 0).is_empty());
}

#[test]
fn a_node_learns_where_it_lives_and_where_others_do() {
    let (me, them) = two_peers();
    let third = random_peer();
    let mut node = node(me, None, false);
    let here = address("/ip4/203.0.113.7/udp/4001/quic-v1");
    let there = address("/ip4/203.0.113.8/udp/4001/quic-v1");
    let told = encode_observed("beta", &me, &here);
    let actions = node.on_message(Some(them), &told, SECOND, &[]);
    assert_eq!(kinds(&actions), ["joined", "publish", "my-address"]);
    assert!(node.on_message(Some(them), &told, SECOND, &[]).is_empty());

    let other = encode_observed("beta", &third, &there);
    assert!(node.on_message(Some(them), &other, SECOND, &[third]).is_empty());
    assert_eq!(
        kinds(&node.on_message(Some(them), &other, SECOND, &[])),
        ["learned-peer", "dial /ip4/203.0.113.8/udp/4001/quic-v1"]
    );
    assert!(node.on_message(Some(them), &other, SECOND, &[]).is_empty());
}

#[test]
fn nobody_is_introduced_to_themselves() {
    let (me, them) = two_peers();
    let addr = address("/ip4/192.0.2.1/tcp/1");
    let found = [(me, addr.clone()), (them, addr.clone())];
    let mut quiet = Node::new("me".into(), 1, false, 3000, me, Vec::new(), None, false, 0);
    assert!(quiet.on_discovered(&found).is_empty());
    assert_eq!(
        kinds(&node(me, None, false).on_discovered(&found)),
        ["introduce", "dial /ip4/192.0.2.1/tcp/1"]
    );
    assert_eq!(quiet.on_heartbeat().len(), 1);
    assert_eq!(quiet.farewell(), encode_departing("me"));
}

#[test]
fn a_mapping_is_news_once_and_a_failure_every_time() {
    let mut node = node(random_peer(), None, false);
    let mapping = Mapping {
        external_ip: Ip4 { a: 203, b: 0, c: 113, d: 7 },
        external_port: 4001,
        lifetime: 3600,
    };
    let actions = node.on_mapping(Ok(mapping));
    let report = only_report(&actions);
    assert_eq!(report.before, "the router forwards 203.0.113.7:4001 to this node for 3600s");
    assert_eq!(report.fields[2], ("as_asked".to_string(), "true".to_string()));
    assert!(node.on_mapping(Ok(mapping)).is_empty());
    for was in ["true", "false"] {
        let actions = node.on_mapping(Err("the router sleeps".into()));
        let report = only_report(&actions);
        assert_eq!(report.fields[1], ("was_mapped".to_string(), was.to_string()));
    }
}

#[test]
fn only_telling_failures_are_told() {
    let them = random_peer();
    assert!(on_dial_failed(None, "Timeout has been reached").is_none());
    assert!(on_dial_failed(None, "it timed out").is_none());
    let report = on_dial_failed(Some(them), "refused").expect("a report");
    assert_eq!(report.fields[0], ("peer".to_string(), them.text()));
    assert_eq!(report.before, "refused");
}

#[test]
fn events_are_prose_or_one_record() {
    let me = random_peer();
    let report = started("n\"1", &me, "default");
    assert_eq!(
        event_line("n\"1", false, &report, "", 5),
        format!("[n\"1] node n\"1 is {} on mesh \"default\"", me.text())
    );
    assert_eq!(
        event_line("n\"1", true, &report, "", 5),
        format!(
            "{{\"ts_unix_ms\":5,\"node\":\"n\\\"1\",\"event\":\"started\",\"peer_id\":\"{}\",\"mesh\":\"default\"}}",
            me.text()
        )
    );
    assert_eq!(job_loaded("a.wasm", true).before, "holding a.wasm, running it");
    assert_eq!(job_loaded("a.wasm", false).before, "holding a.wasm, standing by");
    assert_eq!(departing(true).before, "announced departure, draining");
    assert_eq!(departing(false).before, "departing, but nobody was listening");
}

#[test]
fn spans_are_written_as_they_always_are() {
    let them = random_peer();
    for nanos in [0u64, 7, 999, 1_000, 1_500, 1_000_000, 12_345_678, 999_999_999, 3_000_000_000,
        61_020_000_000, 1_000_000_001]
    {
        let span = Duration::from_nanos(nanos);
        let report = round_trip(&them, nanos as u128);
        assert_eq!(report.before, format!("{} round trip {:?}", them.text(), span));
        assert_eq!(report.fields[1].1, span.as_millis().to_string());
    }
}

#[test]
fn who_left_vanishes_only_after_joining_again() {
    let (me, them) = two_peers();
    let mut node = node(me, None, false);
    let (hello, goodbye) = (encode_heartbeat("beta", 1), encode_departing("beta"));
    // A goodbye from nobody known, then from a member, then again.
    assert!(node.on_message(Some(them), &goodbye, SECOND, &[]).is_empty());
    assert_eq!(kinds(&node.on_message(Some(them), &hello, SECOND, &[])), ["joined", "publish"]);
    assert_eq!(kinds(&node.on_message(Some(them), &goodbye, 2 * SECOND, &[])), ["left"]);
    assert!(node.on_message(Some(them), &goodbye, 3 * SECOND, &[]).is_empty());
    assert!(node.on_sweep(50 * SECOND).is_empty());
    let again = node.on_message(Some(them), &hello, 60 * SECOND, &[]);
    assert_eq!(kinds(&again), ["joined", "publish"]);
    node.on_message(Some(them), &hello, 62 * SECOND, &[]);
    assert!(node.on_sweep(65 * SECOND).is_empty());
    assert_eq!(kinds(&node.on_sweep(65 * SECOND + 1)), ["vanished"]);
}

#[test]
fn published_ticks_grow_past_what_was_adopted() {
    let (me, them) = two_peers();
    let mut node = node(me, job(), true);
    let published = |actions: &[Action]| match actions.last() {
        Some(Action::Publish(bytes)) => bytes.clone(),
        _ => panic!("not published: {:?}", kinds(actions)),
    };
    for tick in 1..4 {
        let actions = node.on_job_tick((8 + tick as u128) * SECOND);
        assert_eq!(published(&actions), encode_checkpoint("me", tick, b"S"));
    }
    // Somebody is further along, then leaves it.
    let ahead = encode_checkpoint("beta", 40, b"T");
    let actions = node.on_message(Some(them), &ahead, 12 * SECOND, &[]);
    assert_eq!(kinds(&actions), ["joined", "publish", "yielded"]);
    assert!(node.on_job_tick(13 * SECOND).is_empty());
    node.on_message(Some(them), &encode_departing("beta"), 14 * SECOND, &[]);
    let actions = node.on_job_tick(15 * SECOND);
    assert_eq!(published(&actions), encode_checkpoint("me", 41, b"S"));
}
