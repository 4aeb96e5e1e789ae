//! What a node reports of itself: in prose for a person, in fields for a script.
use crate::addr::{ip4_text, Ip4};
use crate::peer::{peer_text, Address, PeerId};
use crate::span::{push_span, span_text};
use crate::text::{decimal, decimal_text, push_decimal};
use vstd::prelude::*;

verus! {

/// A span of time in the middle of a sentence, in nanoseconds, and how it is to
/// be written.
#[derive(Clone, Copy, PartialEq, Eq, Structural, Debug)]
pub enum Timing {
    /// There is none.
    Untimed,
    /// In seconds, to one decimal place.
    Seconds(u128),
    /// In whole milliseconds.
    Millis(u128),
}

/// Something worth reporting.
#[derive(Debug)]
pub struct Report {
    /// What kind of thing it is.
    pub kind: String,
    /// The prose before the timing, or all of it.
    pub before: String,
    pub timing: Timing,
    /// The prose after the timing.
    pub after: String,
    /// The same in parts, each with its name.
    pub fields: Vec<(String, String)>,
}

/// Something worth reporting, as values.
#[verifier::ext_equal]
pub struct Note {
    pub kind: Seq<char>,
    pub before: Seq<char>,
    pub timing: Timing,
    pub after: Seq<char>,
    pub fields: Seq<(Seq<char>, Seq<char>)>,
}

/// Fields, as values.
pub open spec fn parts(fields: Seq<(String, String)>) -> Seq<(Seq<char>, Seq<char>)> {
    Seq::new(fields.len(), |i: int| (fields[i].0@, fields[i].1@))
}

impl View for Report {
    type V = Note;

    open spec fn view(&self) -> Note {
        Note {
            kind: self.kind@,
            before: self.before@,
            timing: self.timing,
            after: self.after@,
            fields: parts(self.fields@),
        }
    }
}

impl Report {
    /// The prose, with `timing` where the span of time belongs.
    pub fn prose(&self, timing: &str) -> (text: String)
        ensures
            text@ == self@.before + timing@ + self@.after,
    {
        let mut text = self.before.clone();
        text.push_str(timing);
        text.push_str(&self.after);
        text
    }
}

/// A note without a span of time in it.
pub open spec fn plain_note(
    kind: Seq<char>,
    prose: Seq<char>,
    fields: Seq<(Seq<char>, Seq<char>)>,
) -> Note {
    Note { kind, before: prose, timing: Timing::Untimed, after: Seq::empty(), fields }
}

fn plain(kind: &str, prose: String, fields: Vec<(String, String)>) -> (report: Report)
    ensures
        report@ == plain_note(kind@, prose@, parts(fields@)),
{
    Report {
        kind: kind.to_owned(),
        before: prose,
        timing: Timing::Untimed,
        after: String::new(),
        fields,
    }
}

fn add_field(fields: &mut Vec<(String, String)>, name: &str, value: &str)
    ensures
        parts(final(fields)@) == parts(old(fields)@).push((name@, value@)),
{
    fields.push((name.to_owned(), value.to_owned()));
    assert(parts(fields@) =~= parts(old(fields)@).push((name@, value@)));
}

fn no_fields() -> (fields: Vec<(String, String)>)
    ensures
        parts(fields@) == Seq::<(Seq<char>, Seq<char>)>::empty(),
{
    let fields: Vec<(String, String)> = Vec::new();
    assert(parts(fields@) =~= Seq::<(Seq<char>, Seq<char>)>::empty());
    fields
}

/// Yes or no, as a script reads it.
pub open spec fn truth(yes: bool) -> Seq<char> {
    if yes {
        "true"@
    } else {
        "false"@
    }
}

fn truth_text(yes: bool) -> (text: &'static str)
    ensures
        text@ == truth(yes),
{
    if yes {
        "true"
    } else {
        "false"
    }
}

/// This node exists.
pub open spec fn started_note(label: Seq<char>, me: Seq<u8>, mesh: Seq<char>) -> Note {
    plain_note(
        "started"@,
        "node "@ + label + " is "@ + peer_text(me) + " on mesh \""@ + mesh + "\""@,
        seq![
            ("peer_id"@, peer_text(me)),
            ("mesh"@, mesh),
        ],
    )
}

/// This node exists.
pub fn started(label: &str, me: &PeerId, mesh: &str) -> (report: Report)
    ensures
        report@ == started_note(label@, me@, mesh@),
{
    let mut prose = "node ".to_owned();
    prose.push_str(label);
    prose.push_str(" is ");
    prose.push_str(&me.text());
    prose.push_str(" on mesh \"");
    prose.push_str(mesh);
    prose.push_str("\"");
    let mut fields = no_fields();
    add_field(&mut fields, "peer_id", &me.text());
    add_field(&mut fields, "mesh", mesh);
    plain("started", prose, fields)
}

/// Peers are being dialled, and some have not answered yet.
pub open spec fn dialling_note(peers: nat, attempts: nat) -> Note {
    plain_note(
        "dialling"@,
        "still trying "@ + decimal(peers) + " peer(s), attempt "@ + decimal(attempts),
        seq![
            ("peers"@, decimal(peers)),
            ("attempts"@, decimal(attempts)),
        ],
    )
}

/// Peers are being dialled, and some have not answered yet.
pub fn dialling(peers: usize, attempts: u32) -> (report: Report)
    ensures
        report@ == dialling_note(peers as nat, attempts as nat),
{
    let mut prose = "still trying ".to_owned();
    push_decimal(&mut prose, peers as u128);
    prose.push_str(" peer(s), attempt ");
    push_decimal(&mut prose, attempts as u128);
    let mut fields = no_fields();
    add_field(&mut fields, "peers", &decimal_text(peers as u128));
    add_field(&mut fields, "attempts", &decimal_text(attempts as u128));
    plain("dialling", prose, fields)
}

/// The router forwards nothing to this node.
pub open spec fn port_map_failed_note(error: Seq<char>, was_mapped: bool) -> Note {
    plain_note(
        "port-map-failed"@,
        error,
        seq![
            ("error"@, error),
            ("was_mapped"@, truth(was_mapped)),
        ],
    )
}

/// The router forwards nothing to this node.
pub fn port_map_failed(error: &str, was_mapped: bool) -> (report: Report)
    ensures
        report@ == port_map_failed_note(error@, was_mapped),
{
    let prose = error.to_owned();
    let mut fields = no_fields();
    add_field(&mut fields, "error", error);
    add_field(&mut fields, "was_mapped", truth_text(was_mapped));
    plain("port-map-failed", prose, fields)
}

/// This node started running a job that nobody ran.
pub open spec fn claimed_note(tick: nat) -> Note {
    plain_note(
        "claimed"@,
        "nobody was running this job, so this node is"@,
        seq![
            ("tick"@, decimal(tick)),
        ],
    )
}

/// This node started running a job that nobody ran.
pub fn claimed(tick: u64) -> (report: Report)
    ensures
        report@ == claimed_note(tick as nat),
{
    let prose = "nobody was running this job, so this node is".to_owned();
    let mut fields = no_fields();
    add_field(&mut fields, "tick", &decimal_text(tick as u128));
    plain("claimed", prose, fields)
}

/// The job wants the world to do something.
pub open spec fn effect_note(tick: nat, line: Seq<char>) -> Note {
    plain_note(
        "effect"@,
        "tick "@ + decimal(tick) + " — "@ + line,
        seq![
            ("tick"@, decimal(tick)),
            ("effect"@, line),
        ],
    )
}

/// The job wants the world to do something.
pub fn effect(tick: u64, line: &str) -> (report: Report)
    ensures
        report@ == effect_note(tick as nat, line@),
{
    let mut prose = "tick ".to_owned();
    push_decimal(&mut prose, tick as u128);
    prose.push_str(" — ");
    prose.push_str(line);
    let mut fields = no_fields();
    add_field(&mut fields, "tick", &decimal_text(tick as u128));
    add_field(&mut fields, "effect", line);
    plain("effect", prose, fields)
}

/// The job made things.
pub open spec fn produced_note(kind: Seq<char>, claimed: nat, fresh: nat, total: nat, tick: nat) -> Note {
    plain_note(
        "produced"@,
        decimal(claimed) + " "@ + kind + ", "@ + decimal(fresh) + " new — "@ + decimal(total) + " in the ledger"@,
        seq![
            ("kind"@, kind),
            ("claimed"@, decimal(claimed)),
            ("new"@, decimal(fresh)),
            ("total"@, decimal(total)),
            ("tick"@, decimal(tick)),
        ],
    )
}

/// The job made things.
pub fn produced(kind: &str, claimed: u32, fresh: u32, total: usize, tick: u64) -> (report: Report)
    ensures
        report@ == produced_note(kind@, claimed as nat, fresh as nat, total as nat, tick as nat),
{
    let mut prose = decimal_text(claimed as u128);
    prose.push_str(" ");
    prose.push_str(kind);
    prose.push_str(", ");
    push_decimal(&mut prose, fresh as u128);
    prose.push_str(" new — ");
    push_decimal(&mut prose, total as u128);
    prose.push_str(" in the ledger");
    let mut fields = no_fields();
    add_field(&mut fields, "kind", kind);
    add_field(&mut fields, "claimed", &decimal_text(claimed as u128));
    add_field(&mut fields, "new", &decimal_text(fresh as u128));
    add_field(&mut fields, "total", &decimal_text(total as u128));
    add_field(&mut fields, "tick", &decimal_text(tick as u128));
    plain("produced", prose, fields)
}

/// A tick of the job came to nothing.
pub open spec fn job_failed_note(why: Seq<char>, tick: nat) -> Note {
    plain_note(
        "job-failed"@,
        why,
        seq![
            ("tick"@, decimal(tick)),
        ],
    )
}

/// A tick of the job came to nothing.
pub fn job_failed(why: &str, tick: u64) -> (report: Report)
    ensures
        report@ == job_failed_note(why@, tick as nat),
{
    let prose = why.to_owned();
    let mut fields = no_fields();
    add_field(&mut fields, "tick", &decimal_text(tick as u128));
    plain("job-failed", prose, fields)
}

/// A peer was reached, or reached this node.
pub open spec fn connected_note(peer: Seq<u8>, reached: Seq<char>, attempts: nat, pending: nat) -> Note {
    plain_note(
        "connected"@,
        "reached "@ + peer_text(peer) + " at "@ + reached,
        seq![
            ("peer_id"@, peer_text(peer)),
            ("addr"@, reached),
            ("after_attempts"@, decimal(attempts)),
            ("still_pending"@, decimal(pending)),
        ],
    )
}

/// A peer was reached, or reached this node.
pub fn connected(peer: &PeerId, reached: &Address, attempts: u32, pending: usize) -> (report: Report)
    ensures
        report@ == connected_note(peer@, reached@, attempts as nat, pending as nat),
{
    let mut prose = "reached ".to_owned();
    prose.push_str(&peer.text());
    prose.push_str(" at ");
    prose.push_str(reached.text());
    let mut fields = no_fields();
    add_field(&mut fields, "peer_id", &peer.text());
    add_field(&mut fields, "addr", reached.text());
    add_field(&mut fields, "after_attempts", &decimal_text(attempts as u128));
    add_field(&mut fields, "still_pending", &decimal_text(pending as u128));
    plain("connected", prose, fields)
}

/// Nobody is left to dial.
pub open spec fn all_reached_note() -> Note {
    plain_note(
        "all-reached"@,
        "every peer given on the command line answered"@,
        Seq::empty(),
    )
}

/// Nobody is left to dial.
pub fn all_reached() -> (report: Report)
    ensures
        report@ == all_reached_note(),
{
    let prose = "every peer given on the command line answered".to_owned();
    let fields = no_fields();
    plain("all-reached", prose, fields)
}

/// Something is calling.
pub open spec fn incoming_note(from: Seq<char>) -> Note {
    plain_note(
        "incoming"@,
        "something is calling from "@ + from,
        seq![
            ("from"@, from),
        ],
    )
}

/// Something is calling.
pub fn incoming(from: &str) -> (report: Report)
    ensures
        report@ == incoming_note(from@),
{
    let mut prose = "something is calling from ".to_owned();
    prose.push_str(from);
    let mut fields = no_fields();
    add_field(&mut fields, "from", from);
    plain("incoming", prose, fields)
}

/// Something called, and the connection failed.
pub open spec fn incoming_failed_note(from: Seq<char>, error: Seq<char>) -> Note {
    plain_note(
        "incoming-failed"@,
        from + " reached us but the connection failed: "@ + error,
        seq![
            ("from"@, from),
            ("error"@, error),
        ],
    )
}

/// Something called, and the connection failed.
pub fn incoming_failed(from: &str, error: &str) -> (report: Report)
    ensures
        report@ == incoming_failed_note(from@, error@),
{
    let mut prose = from.to_owned();
    prose.push_str(" reached us but the connection failed: ");
    prose.push_str(error);
    let mut fields = no_fields();
    add_field(&mut fields, "from", from);
    add_field(&mut fields, "error", error);
    plain("incoming-failed", prose, fields)
}

/// A peer was dialled in vain, for a reason worth telling.
pub open spec fn dial_failed_note(reason: Seq<char>, peer: Seq<char>) -> Note {
    plain_note(
        "dial-failed"@,
        reason,
        seq![
            ("peer"@, peer),
            ("error"@, reason),
        ],
    )
}

/// A peer was dialled in vain, for a reason worth telling.
pub fn dial_failed(reason: &str, peer: &str) -> (report: Report)
    ensures
        report@ == dial_failed_note(reason@, peer@),
{
    let prose = reason.to_owned();
    let mut fields = no_fields();
    add_field(&mut fields, "peer", peer);
    add_field(&mut fields, "error", reason);
    plain("dial-failed", prose, fields)
}

/// This node can be called at an address.
pub open spec fn listening_note(address: Seq<char>) -> Note {
    plain_note(
        "listening"@,
        "listening on "@ + address,
        seq![
            ("addr"@, address),
        ],
    )
}

/// This node can be called at an address.
pub fn listening(address: &str) -> (report: Report)
    ensures
        report@ == listening_note(address@),
{
    let mut prose = "listening on ".to_owned();
    prose.push_str(address);
    let mut fields = no_fields();
    add_field(&mut fields, "addr", address);
    plain("listening", prose, fields)
}

/// This node cannot be called at an address that it wanted.
pub open spec fn listen_failed_note(error: Seq<char>) -> Note {
    plain_note(
        "listen-failed"@,
        error,
        seq![
            ("error"@, error),
        ],
    )
}

/// This node cannot be called at an address that it wanted.
pub fn listen_failed(error: &str) -> (report: Report)
    ensures
        report@ == listen_failed_note(error@),
{
    let prose = error.to_owned();
    let mut fields = no_fields();
    add_field(&mut fields, "error", error);
    plain("listen-failed", prose, fields)
}

/// A peer was heard for the first time.
pub open spec fn joined_note(label: Seq<char>, peer: Seq<u8>) -> Note {
    plain_note(
        "joined"@,
        label + " joined"@,
        seq![
            ("peer_id"@, peer_text(peer)),
            ("label"@, label),
        ],
    )
}

/// A peer was heard for the first time.
pub fn joined(label: &str, peer: &PeerId) -> (report: Report)
    ensures
        report@ == joined_note(label@, peer@),
{
    let mut prose = label.to_owned();
    prose.push_str(" joined");
    let mut fields = no_fields();
    add_field(&mut fields, "peer_id", &peer.text());
    add_field(&mut fields, "label", label);
    plain("joined", prose, fields)
}

/// A peer said goodbye.
pub open spec fn left_note(label: Seq<char>, peer: Seq<u8>, present: nat) -> Note {
    plain_note(
        "left"@,
        label + " left, announced"@,
        seq![
            ("peer_id"@, peer_text(peer)),
            ("label"@, label),
            ("was_present_ms"@, decimal(present / 1_000_000)),
        ],
    )
}

/// A peer said goodbye.
pub fn left(label: &str, peer: &PeerId, present: u128) -> (report: Report)
    ensures
        report@ == left_note(label@, peer@, present as nat),
{
    let mut prose = label.to_owned();
    prose.push_str(" left, announced");
    let mut fields = no_fields();
    add_field(&mut fields, "peer_id", &peer.text());
    add_field(&mut fields, "label", label);
    add_field(&mut fields, "was_present_ms", &decimal_text(present / 1_000_000));
    plain("left", prose, fields)
}

/// This node heard where it lives.
pub open spec fn my_address_note(label: Seq<char>, addr: Seq<char>) -> Note {
    plain_note(
        "my-address"@,
        label + " sees this node at "@ + addr,
        seq![
            ("addr"@, addr),
            ("observed_by"@, label),
        ],
    )
}

/// This node heard where it lives.
pub fn my_address(label: &str, addr: &Address) -> (report: Report)
    ensures
        report@ == my_address_note(label@, addr@),
{
    let mut prose = label.to_owned();
    prose.push_str(" sees this node at ");
    prose.push_str(addr.text());
    let mut fields = no_fields();
    add_field(&mut fields, "addr", addr.text());
    add_field(&mut fields, "observed_by", label);
    plain("my-address", prose, fields)
}

/// This node heard where a peer lives.
pub open spec fn learned_peer_note(label: Seq<char>, peer: Seq<u8>, addr: Seq<char>) -> Note {
    plain_note(
        "learned-peer"@,
        label + " says "@ + peer_text(peer) + " is at "@ + addr,
        seq![
            ("peer_id"@, peer_text(peer)),
            ("addr"@, addr),
            ("from"@, label),
        ],
    )
}

/// This node heard where a peer lives.
pub fn learned_peer(label: &str, peer: &PeerId, addr: &Address) -> (report: Report)
    ensures
        report@ == learned_peer_note(label@, peer@, addr@),
{
    let mut prose = label.to_owned();
    prose.push_str(" says ");
    prose.push_str(&peer.text());
    prose.push_str(" is at ");
    prose.push_str(addr.text());
    let mut fields = no_fields();
    add_field(&mut fields, "peer_id", &peer.text());
    add_field(&mut fields, "addr", addr.text());
    add_field(&mut fields, "from", label);
    plain("learned-peer", prose, fields)
}

/// Two nodes ran the job, and this one stopped.
pub open spec fn yielded_note(label: Seq<char>, peer: Seq<u8>, their_tick: nat, our_tick: nat) -> Note {
    plain_note(
        "yielded"@,
        label + " is further along, so it keeps the job"@,
        seq![
            ("peer_id"@, peer_text(peer)),
            ("label"@, label),
            ("their_tick"@, decimal(their_tick)),
            ("our_tick"@, decimal(our_tick)),
        ],
    )
}

/// Two nodes ran the job, and this one stopped.
pub fn yielded(label: &str, peer: &PeerId, their_tick: u64, our_tick: u64) -> (report: Report)
    ensures
        report@ == yielded_note(label@, peer@, their_tick as nat, our_tick as nat),
{
    let mut prose = label.to_owned();
    prose.push_str(" is further along, so it keeps the job");
    let mut fields = no_fields();
    add_field(&mut fields, "peer_id", &peer.text());
    add_field(&mut fields, "label", label);
    add_field(&mut fields, "their_tick", &decimal_text(their_tick as u128));
    add_field(&mut fields, "our_tick", &decimal_text(our_tick as u128));
    plain("yielded", prose, fields)
}

/// Another node runs the job.
pub open spec fn job_owner_note(label: Seq<char>, peer: Seq<u8>) -> Note {
    plain_note(
        "job-owner"@,
        label + " is running the job"@,
        seq![
            ("peer_id"@, peer_text(peer)),
            ("label"@, label),
        ],
    )
}

/// Another node runs the job.
pub fn job_owner(label: &str, peer: &PeerId) -> (report: Report)
    ensures
        report@ == job_owner_note(label@, peer@),
{
    let mut prose = label.to_owned();
    prose.push_str(" is running the job");
    let mut fields = no_fields();
    add_field(&mut fields, "peer_id", &peer.text());
    add_field(&mut fields, "label", label);
    plain("job-owner", prose, fields)
}

/// A peer was lost and is being dialled again.
pub open spec fn redialling_note(peer: Seq<u8>, resumed: nat) -> Note {
    plain_note(
        "redialling"@,
        "lost a peer; trying its "@ + decimal(resumed) + " known address(es) again"@,
        seq![
            ("peer_id"@, peer_text(peer)),
            ("addresses"@, decimal(resumed)),
        ],
    )
}

/// A peer was lost and is being dialled again.
pub fn redialling(peer: &PeerId, resumed: usize) -> (report: Report)
    ensures
        report@ == redialling_note(peer@, resumed as nat),
{
    let mut prose = "lost a peer; trying its ".to_owned();
    push_decimal(&mut prose, resumed as u128);
    prose.push_str(" known address(es) again");
    let mut fields = no_fields();
    add_field(&mut fields, "peer_id", &peer.text());
    add_field(&mut fields, "addresses", &decimal_text(resumed as u128));
    plain("redialling", prose, fields)
}

/// How long a word to a peer and back takes.
pub open spec fn round_trip_note(peer: Seq<u8>, rtt: nat) -> Note {
    plain_note(
        "rtt"@,
        peer_text(peer) + " round trip "@ + span_text(rtt),
        seq![
            ("peer_id"@, peer_text(peer)),
            ("rtt_ms"@, decimal(rtt / 1_000_000)),
        ],
    )
}

/// How long a word to a peer and back takes.
pub fn round_trip(peer: &PeerId, rtt: u128) -> (report: Report)
    ensures
        report@ == round_trip_note(peer@, rtt as nat),
{
    let mut prose = peer.text();
    prose.push_str(" round trip ");
    push_span(&mut prose, rtt);
    let mut fields = no_fields();
    add_field(&mut fields, "peer_id", &peer.text());
    add_field(&mut fields, "rtt_ms", &decimal_text(rtt / 1_000_000));
    plain("rtt", prose, fields)
}

/// This node continues a job whose owner has gone.
pub open spec fn took_over_note(tick: nat, gap: nat, state_bytes: nat, survivors: nat) -> Note {
    Note {
        kind: "took-over"@,
        before: "continuing the job from tick "@ + decimal(tick) + " — "@,
        timing: Timing::Millis(gap as u128),
        after: " ms after noticing"@,
        fields: seq![
            ("tick"@, decimal(tick)),
            ("decision_ms"@, decimal(gap / 1_000_000)),
            ("state_bytes"@, decimal(state_bytes)),
            ("survivors"@, decimal(survivors)),
        ],
    }
}

/// This node continues a job whose owner has gone.
pub fn took_over(tick: u64, gap: u128, state_bytes: usize, survivors: u128) -> (report: Report)
    ensures
        report@ == took_over_note(tick as nat, gap as nat, state_bytes as nat, survivors as nat),
{
    let mut prose = "continuing the job from tick ".to_owned();
    push_decimal(&mut prose, tick as u128);
    prose.push_str(" — ");
    let mut fields = no_fields();
    add_field(&mut fields, "tick", &decimal_text(tick as u128));
    add_field(&mut fields, "decision_ms", &decimal_text(gap / 1_000_000));
    add_field(&mut fields, "state_bytes", &decimal_text(state_bytes as u128));
    add_field(&mut fields, "survivors", &decimal_text(survivors));
    let after = " ms after noticing".to_owned();
    Report {
        kind: "took-over".to_owned(),
        before: prose,
        timing: Timing::Millis(gap),
        after,
        fields,
    }
}

/// This node holds a job.
pub open spec fn job_loaded_note(path: Seq<char>, own: bool) -> Note {
    plain_note(
        "job-loaded"@,
        "holding "@ + path + if own {
            ", running it"@
        } else {
            ", standing by"@
        },
        seq![("path"@, path), ("owner"@, truth(own))],
    )
}

/// This node holds a job.
pub fn job_loaded(path: &str, own: bool) -> (report: Report)
    ensures
        report@ == job_loaded_note(path@, own),
{
    let mut prose = "holding ".to_owned();
    prose.push_str(path);
    prose.push_str(
        if own {
            ", running it"
        } else {
            ", standing by"
        },
    );
    let mut fields = no_fields();
    add_field(&mut fields, "path", path);
    add_field(&mut fields, "owner", truth_text(own));
    plain("job-loaded", prose, fields)
}

/// The router forwards a port to this node.
pub open spec fn port_mapped_note(ip: Ip4, port: nat, lifetime: nat, as_asked: bool) -> Note {
    let external = ip4_text(ip) + ":"@ + decimal(port);
    plain_note(
        "port-mapped"@,
        "the router forwards "@ + external + " to this node for "@ + decimal(lifetime) + "s"@,
        seq![
            ("external"@, external),
            ("lifetime"@, decimal(lifetime)),
            ("as_asked"@, truth(as_asked)),
        ],
    )
}

/// The router forwards a port to this node.
pub fn port_mapped(ip: Ip4, port: u16, lifetime: u32, as_asked: bool) -> (report: Report)
    ensures
        report@ == port_mapped_note(ip, port as nat, lifetime as nat, as_asked),
{
    let mut external = ip.text();
    external.push_str(":");
    push_decimal(&mut external, port as u128);
    let mut prose = "the router forwards ".to_owned();
    prose.push_str(&external);
    prose.push_str(" to this node for ");
    push_decimal(&mut prose, lifetime as u128);
    prose.push_str("s");
    let mut fields = no_fields();
    add_field(&mut fields, "external", &external);
    add_field(&mut fields, "lifetime", &decimal_text(lifetime as u128));
    add_field(&mut fields, "as_asked", truth_text(as_asked));
    plain("port-mapped", prose, fields)
}

/// A peer fell silent and is presumed gone.
pub open spec fn vanished_note(
    label: Seq<char>,
    peer: Seq<u8>,
    silent: nat,
    dropped: bool,
    present: nat,
) -> Note {
    Note {
        kind: "vanished"@,
        before: label + " vanished — "@,
        timing: Timing::Seconds(silent as u128),
        after: "s of silence, no goodbye"@ + if dropped {
            " (transport had dropped)"@
        } else {
            Seq::empty()
        },
        fields: seq![
            ("peer_id"@, peer_text(peer)),
            ("label"@, label),
            ("silent_ms"@, decimal(silent / 1_000_000)),
            ("transport_dropped"@, truth(dropped)),
            ("was_present_ms"@, decimal(present / 1_000_000)),
        ],
    }
}

/// A peer fell silent and is presumed gone.
pub fn vanished(label: &str, peer: &PeerId, silent: u128, dropped: bool, present: u128) -> (report:
    Report)
    ensures
        report@ == vanished_note(label@, peer@, silent as nat, dropped, present as nat),
{
    let mut before = label.to_owned();
    before.push_str(" vanished — ");
    let mut after = "s of silence, no goodbye".to_owned();
    if dropped {
        after.push_str(" (transport had dropped)");
    }
    let mut fields = no_fields();
    add_field(&mut fields, "peer_id", &peer.text());
    add_field(&mut fields, "label", label);
    add_field(&mut fields, "silent_ms", &decimal_text(silent / 1_000_000));
    add_field(&mut fields, "transport_dropped", truth_text(dropped));
    add_field(&mut fields, "was_present_ms", &decimal_text(present / 1_000_000));
    let report = Report {
        kind: "vanished".to_owned(),
        before,
        timing: Timing::Seconds(silent),
        after,
        fields,
    };
    assert(report@ =~= vanished_note(label@, peer@, silent as nat, dropped, present as nat));
    report
}

/// This node is leaving.
pub open spec fn departing_note(announced: bool) -> Note {
    plain_note(
        "departing"@,
        if announced {
            "announced departure, draining"@
        } else {
            "departing, but nobody was listening"@
        },
        seq![("announced"@, truth(announced))],
    )
}

/// This node is leaving.
pub fn departing(announced: bool) -> (report: Report)
    ensures
        report@ == departing_note(announced),
{
    let prose = if announced {
        "announced departure, draining".to_owned()
    } else {
        "departing, but nobody was listening".to_owned()
    };
    let mut fields = no_fields();
    add_field(&mut fields, "announced", truth_text(announced));
    plain("departing", prose, fields)
}

/// Whether a note says this under this name.
pub open spec fn tells(note: Note, name: Seq<char>, value: Seq<char>) -> bool {
    note.fields.contains((name, value))
}

/// Whether a note says a number under this name that is read as this one.
pub open spec fn counts(note: Note, name: Seq<char>, n: nat) -> bool {
    exists|value: Seq<char>| #[trigger]
        note.fields.contains((name, value)) && crate::text::number_up_to(value, 10, n) == Some(n)
}

proof fn lemma_counts(note: Note, i: int, name: Seq<char>, n: nat)
    requires
        0 <= i < note.fields.len(),
        note.fields[i] == (name, decimal(n)),
    ensures
        counts(note, name, n),
{
    crate::text::numbers_round_trip(n, n);
    assert(note.fields.contains((name, decimal(n))));
}

/// A script reads from the reports about the job what happened to it: which tick
/// it was, what was made and how much of it was new, how large the state was that
/// is continued and how many are left, and who runs the job.
pub proof fn reports_tell_of_the_job(
    tick: nat,
    line: Seq<char>,
    label: Seq<char>,
    peer: Seq<u8>,
    span: nat,
    a: nat,
    b: nat,
    c: nat,
)
    ensures
        claimed_note(tick).kind == "claimed"@,
        counts(claimed_note(tick), "tick"@, tick),
        effect_note(tick, line).kind == "effect"@,
        counts(effect_note(tick, line), "tick"@, tick),
        tells(effect_note(tick, line), "effect"@, line),
        produced_note(line, a, b, c, tick).kind == "produced"@,
        tells(produced_note(line, a, b, c, tick), "kind"@, line),
        counts(produced_note(line, a, b, c, tick), "claimed"@, a),
        counts(produced_note(line, a, b, c, tick), "new"@, b),
        counts(produced_note(line, a, b, c, tick), "total"@, c),
        counts(produced_note(line, a, b, c, tick), "tick"@, tick),
        job_failed_note(line, tick).kind == "job-failed"@,
        counts(job_failed_note(line, tick), "tick"@, tick),
        took_over_note(tick, span, a, b).kind == "took-over"@,
        counts(took_over_note(tick, span, a, b), "tick"@, tick),
        counts(took_over_note(tick, span, a, b), "decision_ms"@, span / 1_000_000),
        counts(took_over_note(tick, span, a, b), "state_bytes"@, a),
        counts(took_over_note(tick, span, a, b), "survivors"@, b),
        yielded_note(label, peer, a, tick).kind == "yielded"@,
        tells(yielded_note(label, peer, a, tick), "peer_id"@, peer_text(peer)),
        tells(yielded_note(label, peer, a, tick), "label"@, label),
        counts(yielded_note(label, peer, a, tick), "their_tick"@, a),
        counts(yielded_note(label, peer, a, tick), "our_tick"@, tick),
        job_owner_note(label, peer).kind == "job-owner"@,
        tells(job_owner_note(label, peer), "peer_id"@, peer_text(peer)),
        tells(job_owner_note(label, peer), "label"@, label),
        took_over_note(tick, span, a, b).timing == Timing::Millis(span as u128),
{
    lemma_counts(claimed_note(tick), 0, "tick"@, tick);
    lemma_counts(effect_note(tick, line), 0, "tick"@, tick);
    assert(effect_note(tick, line).fields[1] == ("effect"@, line));
    assert(produced_note(line, a, b, c, tick).fields[0] == ("kind"@, line));
    lemma_counts(produced_note(line, a, b, c, tick), 1, "claimed"@, a);
    lemma_counts(produced_note(line, a, b, c, tick), 2, "new"@, b);
    lemma_counts(produced_note(line, a, b, c, tick), 3, "total"@, c);
    lemma_counts(produced_note(line, a, b, c, tick), 4, "tick"@, tick);
    lemma_counts(job_failed_note(line, tick), 0, "tick"@, tick);
    lemma_counts(took_over_note(tick, span, a, b), 0, "tick"@, tick);
    lemma_counts(took_over_note(tick, span, a, b), 1, "decision_ms"@, span / 1_000_000);
    lemma_counts(took_over_note(tick, span, a, b), 2, "state_bytes"@, a);
    lemma_counts(took_over_note(tick, span, a, b), 3, "survivors"@, b);
    assert(yielded_note(label, peer, a, tick).fields[0] == ("peer_id"@, peer_text(peer)));
    assert(yielded_note(label, peer, a, tick).fields[1] == ("label"@, label));
    lemma_counts(yielded_note(label, peer, a, tick), 2, "their_tick"@, a);
    lemma_counts(yielded_note(label, peer, a, tick), 3, "our_tick"@, tick);
    assert(job_owner_note(label, peer).fields[0] == ("peer_id"@, peer_text(peer)));
    assert(job_owner_note(label, peer).fields[1] == ("label"@, label));
}

/// A script reads from the reports about members who it was, for how long they
/// were there and for how long they were silent, in milliseconds.
pub proof fn reports_tell_of_the_members(
    label: Seq<char>,
    peer: Seq<u8>,
    silent: nat,
    span: nat,
    yes: bool,
)
    ensures
        joined_note(label, peer).kind == "joined"@,
        tells(joined_note(label, peer), "peer_id"@, peer_text(peer)),
        tells(joined_note(label, peer), "label"@, label),
        left_note(label, peer, span).kind == "left"@,
        tells(left_note(label, peer, span), "peer_id"@, peer_text(peer)),
        tells(left_note(label, peer, span), "label"@, label),
        counts(left_note(label, peer, span), "was_present_ms"@, span / 1_000_000),
        vanished_note(label, peer, silent, yes, span).kind == "vanished"@,
        tells(vanished_note(label, peer, silent, yes, span), "peer_id"@, peer_text(peer)),
        tells(vanished_note(label, peer, silent, yes, span), "label"@, label),
        counts(vanished_note(label, peer, silent, yes, span), "silent_ms"@, silent / 1_000_000),
        tells(vanished_note(label, peer, silent, yes, span), "transport_dropped"@, if yes { "true"@ } else { "false"@ }),
        counts(vanished_note(label, peer, silent, yes, span), "was_present_ms"@, span / 1_000_000),
        round_trip_note(peer, span).kind == "rtt"@,
        tells(round_trip_note(peer, span), "peer_id"@, peer_text(peer)),
        counts(round_trip_note(peer, span), "rtt_ms"@, span / 1_000_000),
        departing_note(yes).kind == "departing"@,
        tells(departing_note(yes), "announced"@, if yes { "true"@ } else { "false"@ }),
        vanished_note(label, peer, silent, yes, span).timing == Timing::Seconds(silent as u128),
{
    assert(joined_note(label, peer).fields[0] == ("peer_id"@, peer_text(peer)));
    assert(joined_note(label, peer).fields[1] == ("label"@, label));
    assert(left_note(label, peer, span).fields[0] == ("peer_id"@, peer_text(peer)));
    assert(left_note(label, peer, span).fields[1] == ("label"@, label));
    lemma_counts(left_note(label, peer, span), 2, "was_present_ms"@, span / 1_000_000);
    assert(vanished_note(label, peer, silent, yes, span).fields[0] == ("peer_id"@, peer_text(peer)));
    assert(vanished_note(label, peer, silent, yes, span).fields[1] == ("label"@, label));
    lemma_counts(vanished_note(label, peer, silent, yes, span), 2, "silent_ms"@, silent / 1_000_000);
    assert(vanished_note(label, peer, silent, yes, span).fields[3] == ("transport_dropped"@, truth(yes)));
    lemma_counts(vanished_note(label, peer, silent, yes, span), 4, "was_present_ms"@, span / 1_000_000);
    assert(round_trip_note(peer, span).fields[0] == ("peer_id"@, peer_text(peer)));
    lemma_counts(round_trip_note(peer, span), 1, "rtt_ms"@, span / 1_000_000);
    assert(departing_note(yes).fields[0] == ("announced"@, truth(yes)));
}

/// A script reads from the reports about routes who was reached or sought, where,
/// after how many attempts and with how many to go.
pub proof fn reports_tell_of_the_routes(
    label: Seq<char>,
    peer: Seq<u8>,
    addr: Seq<char>,
    a: nat,
    b: nat,
    yes: bool,
)
    ensures
        dialling_note(a, b).kind == "dialling"@,
        counts(dialling_note(a, b), "peers"@, a),
        counts(dialling_note(a, b), "attempts"@, b),
        connected_note(peer, addr, a, b).kind == "connected"@,
        tells(connected_note(peer, addr, a, b), "peer_id"@, peer_text(peer)),
        tells(connected_note(peer, addr, a, b), "addr"@, addr),
        counts(connected_note(peer, addr, a, b), "after_attempts"@, a),
        counts(connected_note(peer, addr, a, b), "still_pending"@, b),
        redialling_note(peer, a).kind == "redialling"@,
        tells(redialling_note(peer, a), "peer_id"@, peer_text(peer)),
        counts(redialling_note(peer, a), "addresses"@, a),
        my_address_note(label, addr).kind == "my-address"@,
        tells(my_address_note(label, addr), "addr"@, addr),
        tells(my_address_note(label, addr), "observed_by"@, label),
        learned_peer_note(label, peer, addr).kind == "learned-peer"@,
        tells(learned_peer_note(label, peer, addr), "peer_id"@, peer_text(peer)),
        tells(learned_peer_note(label, peer, addr), "addr"@, addr),
        tells(learned_peer_note(label, peer, addr), "from"@, label),
        port_map_failed_note(label, yes).kind == "port-map-failed"@,
        tells(port_map_failed_note(label, yes), "error"@, label),
        tells(port_map_failed_note(label, yes), "was_mapped"@, if yes { "true"@ } else { "false"@ }),
        dial_failed_note(label, addr).kind == "dial-failed"@,
        tells(dial_failed_note(label, addr), "peer"@, addr),
        tells(dial_failed_note(label, addr), "error"@, label),
        incoming_note(addr).kind == "incoming"@,
        tells(incoming_note(addr), "from"@, addr),
        incoming_failed_note(addr, label).kind == "incoming-failed"@,
        tells(incoming_failed_note(addr, label), "from"@, addr),
        tells(incoming_failed_note(addr, label), "error"@, label),
        listening_note(addr).kind == "listening"@,
        tells(listening_note(addr), "addr"@, addr),
        listen_failed_note(label).kind == "listen-failed"@,
        tells(listen_failed_note(label), "error"@, label),
{
    lemma_counts(dialling_note(a, b), 0, "peers"@, a);
    lemma_counts(dialling_note(a, b), 1, "attempts"@, b);
    assert(connected_note(peer, addr, a, b).fields[0] == ("peer_id"@, peer_text(peer)));
    assert(connected_note(peer, addr, a, b).fields[1] == ("addr"@, addr));
    lemma_counts(connected_note(peer, addr, a, b), 2, "after_attempts"@, a);
    lemma_counts(connected_note(peer, addr, a, b), 3, "still_pending"@, b);
    assert(redialling_note(peer, a).fields[0] == ("peer_id"@, peer_text(peer)));
    lemma_counts(redialling_note(peer, a), 1, "addresses"@, a);
    assert(my_address_note(label, addr).fields[0] == ("addr"@, addr));
    assert(my_address_note(label, addr).fields[1] == ("observed_by"@, label));
    assert(learned_peer_note(label, peer, addr).fields[0] == ("peer_id"@, peer_text(peer)));
    assert(learned_peer_note(label, peer, addr).fields[1] == ("addr"@, addr));
    assert(learned_peer_note(label, peer, addr).fields[2] == ("from"@, label));
    assert(port_map_failed_note(label, yes).fields[0] == ("error"@, label));
    assert(port_map_failed_note(label, yes).fields[1] == ("was_mapped"@, truth(yes)));
    assert(dial_failed_note(label, addr).fields[0] == ("peer"@, addr));
    assert(dial_failed_note(label, addr).fields[1] == ("error"@, label));
    assert(incoming_note(addr).fields[0] == ("from"@, addr));
    assert(incoming_failed_note(addr, label).fields[0] == ("from"@, addr));
    assert(incoming_failed_note(addr, label).fields[1] == ("error"@, label));
    assert(listening_note(addr).fields[0] == ("addr"@, addr));
    assert(listen_failed_note(label).fields[0] == ("error"@, label));
}

/// A script reads from the report about a forwarded port where this node can be
/// called from outside, for how long, and whether that is the port it asked for.
pub proof fn reports_tell_of_the_port(ip: Ip4, port: nat, lifetime: nat, yes: bool)
    ensures
        port_mapped_note(ip, port, lifetime, yes).kind == "port-mapped"@,
        tells(
            port_mapped_note(ip, port, lifetime, yes),
            "external"@,
            ip4_text(ip) + ":"@ + decimal(port),
        ),
        counts(port_mapped_note(ip, port, lifetime, yes), "lifetime"@, lifetime),
        tells(
            port_mapped_note(ip, port, lifetime, yes),
            "as_asked"@,
            if yes { "true"@ } else { "false"@ },
        ),
{
    let note = port_mapped_note(ip, port, lifetime, yes);
    assert(note.fields[0] == ("external"@, ip4_text(ip) + ":"@ + decimal(port)));
    lemma_counts(note, 1, "lifetime"@, lifetime);
    assert(note.fields[2] == ("as_asked"@, truth(yes)));
}

/// A person reads the same from the prose.
pub proof fn reports_are_prose_too(
    tick: nat,
    line: Seq<char>,
    label: Seq<char>,
    peer: Seq<u8>,
    a: nat,
    b: nat,
    c: nat,
)
    ensures
        claimed_note(tick).before == "nobody was running this job, so this node is"@,
        effect_note(tick, line).before == "tick "@ + decimal(tick) + " — "@ + line,
        produced_note(line, a, b, c, tick).before == decimal(a) + " "@ + line + ", "@ + decimal(b) + " new — "@ + decimal(c)
            + " in the ledger"@,
        job_failed_note(line, tick).before == line,
        took_over_note(tick, a, b, c).before == "continuing the job from tick "@ + decimal(tick) + " — "@,
        yielded_note(label, peer, a, tick).before == label + " is further along, so it keeps the job"@,
        job_owner_note(label, peer).before == label + " is running the job"@,
        joined_note(label, peer).before == label + " joined"@,
        left_note(label, peer, a).before == label + " left, announced"@,
        vanished_note(label, peer, a, true, b).before == label + " vanished — "@,
        dialling_note(a, b).before == "still trying "@ + decimal(a) + " peer(s), attempt "@ + decimal(b),
        connected_note(peer, line, a, b).before == "reached "@ + peer_text(peer) + " at "@ + line,
        redialling_note(peer, a).before == "lost a peer; trying its "@ + decimal(a) + " known address(es) again"@,
        my_address_note(label, line).before == label + " sees this node at "@ + line,
        learned_peer_note(label, peer, line).before == label + " says "@ + peer_text(peer) + " is at "@ + line,
        round_trip_note(peer, a).before == peer_text(peer) + " round trip "@ + span_text(a),
        port_map_failed_note(line, true).before == line,
        incoming_note(line).before == "something is calling from "@ + line,
        incoming_failed_note(line, label).before == line + " reached us but the connection failed: "@ + label,
        dial_failed_note(line, label).before == line,
        listening_note(line).before == "listening on "@ + line,
        listen_failed_note(line).before == line,
        started_note(label, peer, line).before == "node "@ + label + " is "@ + peer_text(peer) + " on mesh \""@ + line + "\""@,
        took_over_note(tick, a, b, c).after == " ms after noticing"@,
        vanished_note(label, peer, a, false, b).after == "s of silence, no goodbye"@,
        vanished_note(label, peer, a, true, b).after
            == "s of silence, no goodbye"@ + " (transport had dropped)"@,
{
    assert("s of silence, no goodbye"@ + Seq::<char>::empty() =~= "s of silence, no goodbye"@);
}

} // verus!
