//! What a node does over a whole run, event by event.
//!
//! A run is a node and what happens to it, one thing after another. What each
//! thing makes of the node is in `mesh`; here is what follows for all of them
//! together.
use crate::bytes::{le_bytes, lemma_byte_rooms, lemma_le_bytes_len, lemma_le_round_trip};
use crate::frame::block;
use crate::job::{JobError, Outcome};
use crate::mesh::{effect_notes, elapsed, may_come_to, reporting, Deed, NodeView};
use crate::message::{
    checkpoint_bytes, heartbeat_bytes, observed_bytes, said_in, Said, KIND_CHECKPOINT,
    KIND_HEARTBEAT, KIND_OBSERVED,
};
use crate::notice::{joined_note, left_note, vanished_note, Note};
use crate::portmap::Mapping;
use crate::work::{stock_notes, yields};
use vstd::prelude::*;
use vstd::utf8::encode_utf8;

verus! {

/// What happens to a node. What is open until it happens comes with it: what the
/// router or the job answered, and the order in which peers are gone through.
pub enum What {
    /// It is time to dial again.
    Dial,
    /// The router was asked for a port.
    Mapped(Result<Mapping, Seq<char>>),
    /// It is time to tell where these peers can be seen.
    Announce(Seq<Seq<u8>>),
    /// It is time for a heartbeat.
    Beat,
    /// It is time for a tick, which comes to this if the node runs the job.
    Tick(Result<Outcome, JobError>),
    /// It is time to see who has been silent for too long, and these have.
    Sweep(Seq<Seq<u8>>),
    /// A peer was reached.
    Met { peer: Seq<u8>, dialled: Option<Seq<char>>, reached: Seq<char> },
    /// Peers were found on the local network.
    Found(Seq<(Seq<u8>, Seq<char>)>),
    /// Bytes came in.
    Heard { source: Option<Seq<u8>>, data: Seq<u8>, connected: Set<Seq<u8>> },
    /// A connection closed.
    Closed { peer: Seq<u8>, remaining: u32 },
}

/// What happens to a node, and when.
pub struct Event {
    pub now: u128,
    pub what: What,
}

impl NodeView {
    /// What becomes of the node, and what it does.
    #[verifier::opaque]
    pub open spec fn facing(self, event: Event) -> (NodeView, Seq<Deed>) {
        match event.what {
            What::Dial => self.dialled(),
            What::Mapped(answer) => self.mapped(answer),
            What::Announce(peers) => (self, self.announcing(peers)),
            What::Beat => self.beating(),
            What::Tick(res) => {
                let (ready, first) = self.claiming(event.now);
                if ready.runs() {
                    let (next, more) = ready.ticked(res);
                    (next, first + more)
                } else {
                    (ready, first)
                }
            },
            What::Sweep(gone) => self.swept(event.now, gone),
            What::Met { peer, dialled, reached } => self.met(peer, dialled, reached),
            What::Found(found) => (
                self,
                if self.mdns {
                    self.meeting(found)
                } else {
                    Seq::empty()
                },
            ),
            What::Heard { source, data, connected } => self.receiving(
                source,
                data,
                event.now,
                connected,
            ),
            What::Closed { peer, remaining } => self.parted(peer, remaining),
        }
    }

    /// Whether this can happen to the node. Its counters have room, whoever is
    /// swept away was silent for too long, and a tick comes to what the job can
    /// answer.
    #[verifier::opaque]
    pub open spec fn may_face(self, event: Event) -> bool {
        match event.what {
            What::Dial => self.dial_attempts < u32::MAX,
            What::Announce(peers) => peers.no_duplicates() && peers.to_set() == self.seen_at.dom(),
            What::Beat => self.counter < u64::MAX,
            What::Heard { .. } => self.counter < u64::MAX,
            What::Tick(res) => {
                let ready = self.claiming(event.now).0;
                ready.runs() ==> ready.work->0.tick < u64::MAX && may_come_to(ready.work->0, res)
            },
            What::Sweep(gone) => gone.no_duplicates() && gone.to_set() == self.silent(event.now),
            _ => true,
        }
    }

    /// Whether the node hears something that it understands from `peer`.
    pub open spec fn hears(self, event: Event, peer: Seq<u8>) -> bool {
        event.what matches What::Heard { source, data, .. } && source == Some(peer) && peer
            != self.me && said_in(data) is Some
    }

    /// Whether `peer` says goodbye to the node.
    pub open spec fn hears_goodbye(self, event: Event, peer: Seq<u8>) -> bool {
        self.hears(event, peer) && said_in(event.what->data)->0 is Departing
    }

    /// Whether `peer` joins the mesh, as the node sees it.
    pub open spec fn sees_join(self, event: Event, peer: Seq<u8>) -> bool {
        self.hears(event, peer) && !self.hears_goodbye(event, peer) && !self.members.dom().contains(
            peer,
        )
    }

    /// The tick of the checkpoint that the node takes up, if it takes one up.
    pub open spec fn adopts(self, event: Event) -> Option<u64> {
        match event.what {
            What::Heard { source: Some(source), data, .. } => match said_in(data) {
                Some(Said::Checkpoint { tick, .. }) => if source != self.me && self.work is Some
                    && tick >= self.work->0.tick && (self.runs() ==> yields(
                    (self.work->0.tick, self.me),
                    (tick, source),
                )) {
                    Some(tick)
                } else {
                    None
                },
                _ => None,
            },
            _ => None,
        }
    }
}

/// What has become of a node after all of these.
pub open spec fn after(n: NodeView, events: Seq<Event>) -> NodeView
    decreases events.len(),
{
    if events.len() == 0 {
        n
    } else {
        after(n, events.drop_last()).facing(events.last()).0
    }
}

/// The node as the event at `i` finds it.
#[verifier::opaque]
pub open spec fn before_event(n: NodeView, events: Seq<Event>, i: int) -> NodeView {
    after(n, events.take(i))
}

/// What the node does about the event at `i`.
pub open spec fn done_about(n: NodeView, events: Seq<Event>, i: int) -> Seq<Deed> {
    before_event(n, events, i).facing(events[i]).1
}

/// Whether a node can live through these, one after the other. Its clock never
/// goes back.
pub open spec fn may_live(n: NodeView, events: Seq<Event>) -> bool {
    &&& forall|i: int|
        0 <= i < events.len() ==> before_event(n, events, i).may_face(#[trigger] events[i])
    &&& forall|i: int, j: int|
        0 <= i <= j < events.len() ==> (#[trigger] events[i]).now <= (#[trigger] events[j]).now
}

proof fn lemma_next(n: NodeView, events: Seq<Event>, i: int)
    requires
        0 <= i < events.len(),
    ensures
        before_event(n, events, i + 1) == before_event(n, events, i).facing(events[i]).0,
{
    reveal(before_event);
    assert(events.take(i + 1).drop_last() =~= events.take(i));
    assert(events.take(i + 1).last() == events[i]);
}

proof fn lemma_start(n: NodeView, events: Seq<Event>)
    ensures
        before_event(n, events, 0) == n,
{
    reveal(before_event);
    assert(events.take(0) =~= Seq::<Event>::empty());
}

/// What never changes about a node, and that the tick it knows of never goes
/// back.
proof fn lemma_one_event(n: NodeView, e: Event)
    requires
        n.may_face(e),
    ensures
        n.facing(e).0.me == n.me,
        n.facing(e).0.label == n.label,
        n.facing(e).0.detect == n.detect,
        n.work is Some ==> {
            &&& n.facing(e).0.work is Some
            &&& n.facing(e).0.work->0.tick >= n.work->0.tick
        },
        n.adopts(e) matches Some(tick) ==> n.facing(e).0.work->0.tick == tick,
{
    reveal(NodeView::facing);
    reveal(NodeView::may_face);
}

proof fn lemma_events(n: NodeView, events: Seq<Event>, i: int, j: int)
    requires
        may_live(n, events),
        0 <= i <= j <= events.len(),
    ensures
        before_event(n, events, j).me == before_event(n, events, i).me,
        before_event(n, events, j).label == before_event(n, events, i).label,
        before_event(n, events, j).detect == before_event(n, events, i).detect,
        before_event(n, events, i).work is Some ==> {
            &&& before_event(n, events, j).work is Some
            &&& before_event(n, events, j).work->0.tick >= before_event(n, events, i).work->0.tick
        },
    decreases j - i,
{
    if i < j {
        lemma_events(n, events, i, j - 1);
        lemma_next(n, events, j - 1);
        lemma_one_event(before_event(n, events, j - 1), events[j - 1]);
    }
}

proof fn lemma_from_the_start(n: NodeView, events: Seq<Event>, i: int)
    requires
        may_live(n, events),
        0 <= i <= events.len(),
    ensures
        before_event(n, events, i).me == n.me,
        before_event(n, events, i).label == n.label,
        before_event(n, events, i).detect == n.detect,
{
    lemma_events(n, events, 0, i);
    lemma_start(n, events);
}

/// A checkpoint tells its tick.
proof fn lemma_checkpoint_tells_its_tick(
    label: Seq<char>,
    t: u64,
    s: Seq<u8>,
    u: u64,
    v: Seq<u8>,
)
    requires
        checkpoint_bytes(label, t, s) == checkpoint_bytes(label, u, v),
    ensures
        t == u,
{
    let (a, b) = (checkpoint_bytes(label, t, s), checkpoint_bytes(label, u, v));
    let at = 1 + block(encode_utf8(label)).len() as int;
    lemma_byte_rooms();
    lemma_le_bytes_len(t as nat, 8);
    lemma_le_bytes_len(u as nat, 8);
    lemma_le_round_trip(t as nat, 8);
    lemma_le_round_trip(u as nat, 8);
    assert(a.subrange(at, at + 8) =~= le_bytes(t as nat, 8));
    assert(b.subrange(at, at + 8) =~= le_bytes(u as nat, 8));
}

/// Whether this is publishing a checkpoint.
spec fn is_checkpoint(deed: Deed) -> bool {
    deed matches Deed::Publish(bytes) && bytes.len() > 0 && bytes[0] == KIND_CHECKPOINT
}

/// What is published begins with its kind.
proof fn lemma_first_bytes()
    ensures
        forall|l: Seq<char>, c: u64| #[trigger] heartbeat_bytes(l, c)[0] == KIND_HEARTBEAT,
        forall|l: Seq<char>, p: Seq<u8>, a: Seq<char>| #[trigger]
            observed_bytes(l, p, a)[0] == KIND_OBSERVED,
        forall|l: Seq<char>, t: u64, s: Seq<u8>|
            #![trigger checkpoint_bytes(l, t, s)]
            checkpoint_bytes(l, t, s)[0] == KIND_CHECKPOINT && checkpoint_bytes(l, t, s).len() > 0,
{
}

proof fn lemma_meeting_is_quiet(n: NodeView, found: Seq<(Seq<u8>, Seq<char>)>, i: int)
    requires
        0 <= i < n.meeting(found).len(),
    ensures
        !(n.meeting(found)[i] is Publish),
        !(n.meeting(found)[i] is Report),
    decreases found.len(),
{
    if found.len() > 0 {
        let before = n.meeting(found.drop_last());
        if i < before.len() {
            lemma_meeting_is_quiet(n, found.drop_last(), i);
        }
    }
}

proof fn lemma_hearing_publishes_no_checkpoint(
    n: NodeView,
    source: Seq<u8>,
    said: Said,
    now: u128,
    connected: Set<Seq<u8>>,
    i: int,
)
    requires
        0 <= i < n.hearing(source, said, now, connected).1.len(),
    ensures
        !is_checkpoint(n.hearing(source, said, now, connected).1[i]),
{
    lemma_first_bytes();
    let (noticed, first) = n.noticing(source, said, now);
    let more = noticed.acting_on(source, said, now, connected).1;
    if i < first.len() {
        assert(!is_checkpoint(first[i]));
    } else {
        assert(!(more[i - first.len()] is Publish));
    }
}

proof fn lemma_only_ticks_publish_checkpoints(n: NodeView, e: Event, i: int)
    requires
        0 <= i < n.facing(e).1.len(),
        !(e.what is Tick),
    ensures
        !is_checkpoint(n.facing(e).1[i]),
{
    reveal(NodeView::facing);
    reveal(NodeView::may_face);
    lemma_first_bytes();
    let deed = n.facing(e).1[i];
    match e.what {
        What::Found(found) => {
            if n.mdns {
                lemma_meeting_is_quiet(n, found, i);
            }
        },
        What::Heard { source, data, connected } => {
            if n.receiving(source, data, e.now, connected).1.len() > 0 {
                lemma_hearing_publishes_no_checkpoint(
                    n,
                    source->0,
                    said_in(data)->0,
                    e.now,
                    connected,
                    i,
                );
            }
        },
        What::Announce(peers) => {
            assert(deed == Deed::Publish(observed_bytes(n.label, peers[i], n.seen_at[peers[i]])));
        },
        What::Beat => {
            assert(deed == Deed::Publish(heartbeat_bytes(n.label, (n.counter + 1) as u64)));
        },
        What::Met { peer, dialled, reached } => {
            assert(deed is Report || deed == Deed::Publish(observed_bytes(n.label, peer, reached)));
        },
        _ => {
            assert(!(deed is Publish));
        },
    }
}

/// A node publishes a checkpoint only with a tick that it has just run, and the
/// checkpoint is of that tick.
proof fn lemma_published(n: NodeView, e: Event, tick: u64, state: Seq<u8>)
    requires
        n.may_face(e),
        n.facing(e).1.contains(Deed::Publish(checkpoint_bytes(n.label, tick, state))),
    ensures
        n.work is Some,
        n.facing(e).0.work is Some,
        n.facing(e).0.work->0.tick == tick,
        tick == n.work->0.tick + 1,
{
    lemma_first_bytes();
    let this = Deed::Publish(checkpoint_bytes(n.label, tick, state));
    let done = n.facing(e).1;
    let i = done.index_of(this);
    assert(done[i] == this && is_checkpoint(done[i]));
    match e.what {
        What::Tick(res) => {
            lemma_tick_published(n, e.now, res, tick, state, i);
        },
        _ => {
            lemma_only_ticks_publish_checkpoints(n, e, i);
        },
    }
}

proof fn lemma_tick_published(
    n: NodeView,
    now: u128,
    res: Result<Outcome, JobError>,
    tick: u64,
    state: Seq<u8>,
    i: int,
)
    requires
        ({
            let e = Event { now, what: What::Tick(res) };
            &&& n.may_face(e)
            &&& 0 <= i < n.facing(e).1.len()
            &&& n.facing(e).1[i] == Deed::Publish(checkpoint_bytes(n.label, tick, state))
        }),
    ensures
        ({
            let next = n.facing(Event { now, what: What::Tick(res) }).0;
            &&& n.work is Some
            &&& next.work is Some
            &&& next.work->0.tick == tick
            &&& tick == n.work->0.tick + 1
        }),
{
    reveal(NodeView::facing);
    reveal(NodeView::may_face);
    let (ready, first) = n.claiming(now);
    let this = Deed::Publish(checkpoint_bytes(n.label, tick, state));
    assert(ready.runs());
    let more = ready.ticked(res).1;
    assert(i >= first.len());
    assert(more[i - first.len()] == this);
    assert(res is Ok);
    let outcome = res->Ok_0;
    let next = (ready.work->0.tick + 1) as u64;
    assert(forall|k: int| 0 <= k < more.len() - 1 ==> (#[trigger] more[k]) is Report);
    assert(more.last() == Deed::Publish(checkpoint_bytes(n.label, next, outcome.state@)));
    lemma_checkpoint_tells_its_tick(n.label, tick, state, next, outcome.state@);
}

/// Over a whole run, the ticks of the checkpoints that a node publishes only
/// ever grow.
pub proof fn published_ticks_only_grow(
    n: NodeView,
    events: Seq<Event>,
    i: int,
    j: int,
    t: u64,
    s: Seq<u8>,
    u: u64,
    v: Seq<u8>,
)
    requires
        may_live(n, events),
        0 <= i < j < events.len(),
        done_about(n, events, i).contains(Deed::Publish(checkpoint_bytes(n.label, t, s))),
        done_about(n, events, j).contains(Deed::Publish(checkpoint_bytes(n.label, u, v))),
    ensures
        t < u,
{
    lemma_from_the_start(n, events, i);
    lemma_from_the_start(n, events, j);
    lemma_published(before_event(n, events, i), events[i], t, s);
    lemma_published(before_event(n, events, j), events[j], u, v);
    lemma_next(n, events, i);
    lemma_events(n, events, i + 1, j);
}

/// Over a whole run, what a node publishes lies beyond every checkpoint that it
/// took up before: completed work is never undone.
pub proof fn adopted_work_is_built_upon(
    n: NodeView,
    events: Seq<Event>,
    i: int,
    j: int,
    t: u64,
    u: u64,
    v: Seq<u8>,
)
    requires
        may_live(n, events),
        0 <= i < j < events.len(),
        before_event(n, events, i).adopts(events[i]) == Some(t),
        done_about(n, events, j).contains(Deed::Publish(checkpoint_bytes(n.label, u, v))),
    ensures
        t < u,
{
    lemma_from_the_start(n, events, j);
    lemma_published(before_event(n, events, j), events[j], u, v);
    lemma_next(n, events, i);
    lemma_one_event(before_event(n, events, i), events[i]);
    lemma_events(n, events, i + 1, j);
}

/// How membership changes with one event.
proof fn lemma_membership(n: NodeView, e: Event, p: Seq<u8>)
    requires
        n.may_face(e),
    ensures
        ({
            let next = n.facing(e).0;
            &&& next.members.dom().contains(p) && !n.members.dom().contains(p) ==> n.sees_join(
                e,
                p,
            )
            &&& next.members.dom().contains(p) ==> next.members[p].last_heard == if n.hears(e, p) {
                e.now
            } else {
                n.members[p].last_heard
            }
            &&& n.hears_goodbye(e, p) ==> !next.members.dom().contains(p)
        }),
{
    reveal(NodeView::facing);
    reveal(NodeView::may_face);
}

/// Whoever is a member and was not has joined in between, and has been a member
/// since.
proof fn lemma_joined_in_between(n: NodeView, events: Seq<Event>, p: Seq<u8>, from: int, k: int) -> (i:
    int)
    requires
        may_live(n, events),
        0 <= from <= k <= events.len(),
        !before_event(n, events, from).members.dom().contains(p),
        before_event(n, events, k).members.dom().contains(p),
    ensures
        from <= i < k,
        before_event(n, events, i).sees_join(events[i], p),
        forall|m: int|
            i < m <= k ==> (#[trigger] before_event(n, events, m)).members.dom().contains(p),
    decreases k - from,
{
    assert(from < k);
    lemma_next(n, events, k - 1);
    lemma_membership(before_event(n, events, k - 1), events[k - 1], p);
    if before_event(n, events, k - 1).members.dom().contains(p) {
        lemma_joined_in_between(n, events, p, from, k - 1)
    } else {
        k - 1
    }
}

/// Nothing was heard of a member after the instant that is known of it.
proof fn lemma_last_heard(n: NodeView, events: Seq<Event>, p: Seq<u8>, k: int)
    requires
        may_live(n, events),
        n.members == Map::<Seq<u8>, crate::work::Membership>::empty(),
        0 <= k <= events.len(),
        before_event(n, events, k).members.dom().contains(p),
    ensures
        forall|m: int|
            0 <= m < k && before_event(n, events, m).hears(#[trigger] events[m], p)
                ==> events[m].now <= before_event(n, events, k).members[p].last_heard,
    decreases k,
{
    lemma_start(n, events);
    assert(k > 0);
    lemma_next(n, events, k - 1);
    lemma_membership(before_event(n, events, k - 1), events[k - 1], p);
    if before_event(n, events, k - 1).members.dom().contains(p) {
        lemma_last_heard(n, events, p, k - 1);
    }
    assert forall|m: int|
        0 <= m < k && before_event(n, events, m).hears(#[trigger] events[m], p) implies events[m].now
        <= before_event(n, events, k).members[p].last_heard by {
        assert(events[m].now <= events[k - 1].now);
    }
}

/// The kinds of note that tell of who is in the mesh are like no other kind.
proof fn lemma_kinds()
    ensures
        "vanished"@ != "joined"@,
        "vanished"@ != "left"@,
        "joined"@ != "left"@,
        forall|kind: Seq<char>| #[trigger] is_other_kind(kind) ==> !is_membership_kind(kind),
{
    reveal_strlit("vanished");
    reveal_strlit("joined");
    reveal_strlit("left");
    reveal_strlit("dialling");
    reveal_strlit("port-mapped");
    reveal_strlit("port-map-failed");
    reveal_strlit("claimed");
    reveal_strlit("effect");
    reveal_strlit("produced");
    reveal_strlit("job-failed");
    reveal_strlit("took-over");
    reveal_strlit("connected");
    reveal_strlit("all-reached");
    reveal_strlit("my-address");
    reveal_strlit("learned-peer");
    reveal_strlit("yielded");
    reveal_strlit("job-owner");
    reveal_strlit("redialling");
    assert("vanished"@[0] == 'v' && "dialling"@[0] == 'd' && "produced"@[0] == 'p');
    assert("joined"@[0] == 'j' && "effect"@[0] == 'e');
    assert("vanished"@.len() == 8 && "joined"@.len() == 6 && "left"@.len() == 4);
    assert forall|kind: Seq<char>| #[trigger] is_other_kind(kind) implies !is_membership_kind(
        kind,
    ) by {
        assert(kind.len() != 4);
        assert(kind.len() == 6 ==> kind[0] == 'e');
        assert(kind.len() == 8 ==> kind[0] == 'd' || kind[0] == 'p');
    }
}

/// Whether a note of this kind tells of who is in the mesh.
pub open spec fn is_membership_kind(kind: Seq<char>) -> bool {
    kind == "vanished"@ || kind == "joined"@ || kind == "left"@
}

spec fn is_other_kind(kind: Seq<char>) -> bool {
    ||| kind == "dialling"@
    ||| kind == "port-mapped"@
    ||| kind == "port-map-failed"@
    ||| kind == "claimed"@
    ||| kind == "effect"@
    ||| kind == "produced"@
    ||| kind == "job-failed"@
    ||| kind == "took-over"@
    ||| kind == "connected"@
    ||| kind == "all-reached"@
    ||| kind == "my-address"@
    ||| kind == "learned-peer"@
    ||| kind == "yielded"@
    ||| kind == "job-owner"@
    ||| kind == "redialling"@
}

proof fn lemma_stock_notes(
    known: Set<crate::ledger::Thing>,
    job: Seq<u8>,
    tick: u64,
    effects: Seq<Seq<char>>,
    i: int,
)
    requires
        0 <= i < stock_notes(known, job, tick, effects).len(),
    ensures
        stock_notes(known, job, tick, effects)[i].kind == "produced"@,
    decreases effects.len(),
{
    if effects.len() > 0 {
        let earlier = effects.drop_last();
        if i < stock_notes(known, job, tick, earlier).len() {
            lemma_stock_notes(known, job, tick, earlier, i);
        }
    }
}

/// Whether a report about membership is one that the event gives cause for:
/// joined and left by what was heard, and vanished by the sweep.
pub open spec fn has_cause(n: NodeView, e: Event, note: Note) -> bool {
    if note.kind == "vanished"@ {
        exists|p: Seq<u8>| #[trigger]
            vanishes(e, p) && note == vanished_note(
                n.members[p].label,
                p,
                elapsed(e.now, n.members[p].last_heard) as nat,
                n.members[p].disconnected,
                elapsed(e.now, n.members[p].joined) as nat,
            )
    } else if note.kind == "joined"@ {
        exists|p: Seq<u8>| #[trigger]
            n.sees_join(e, p) && note == joined_note(said_in(e.what->data)->0.label(), p)
    } else {
        exists|p: Seq<u8>| #[trigger]
            n.hears_goodbye(e, p) && n.members.dom().contains(p) && note == left_note(
                n.members[p].label,
                p,
                elapsed(e.now, n.members[p].joined) as nat,
            )
    }
}

/// Whether a sweep takes `peer` for gone.
pub open spec fn vanishes(event: Event, peer: Seq<u8>) -> bool {
    event.what matches What::Sweep(gone) && gone.contains(peer)
}

proof fn lemma_ticks_tell_nothing_of_members(
    n: NodeView,
    now: u128,
    res: Result<Outcome, JobError>,
    note: Note,
)
    requires
        n.facing(Event { now, what: What::Tick(res) }).1.contains(Deed::Report(note)),
    ensures
        is_other_kind(note.kind),
{
    reveal(NodeView::facing);
    let (ready, first) = n.claiming(now);
    let done = n.facing(Event { now, what: What::Tick(res) }).1;
    let i = done.index_of(Deed::Report(note));
    assert(done[i] == Deed::Report(note));
    if ready.runs() && i >= first.len() {
        let more = ready.ticked(res).1;
        assert(more[i - first.len()] == done[i]);
        if let Ok(outcome) = res {
            let duty = ready.work->0;
            let tick = (duty.tick + 1) as u64;
            let effects = crate::text::lines(crate::utf8::lossy_text(outcome.effects@));
            let id = crate::digest::sha256_of(duty.job.code());
            let told = reporting(effect_notes(tick, effects));
            let made = stock_notes(duty.ledger, id, tick, effects);
            let k = i - first.len();
            if k < told.len() {
                assert(more[k] == told[k]);
            } else {
                assert(k - told.len() < made.len());
                assert(more[k] == reporting(made)[k - told.len()]);
                lemma_stock_notes(duty.ledger, id, tick, effects, k - told.len());
            }
        }
    }
}

proof fn lemma_sweeps_tell_of_the_vanished(n: NodeView, now: u128, gone: Seq<Seq<u8>>, note: Note)
    requires
        n.facing(Event { now, what: What::Sweep(gone) }).1.contains(Deed::Report(note)),
    ensures
        is_other_kind(note.kind) || (note.kind == "vanished"@ && has_cause(
            n,
            Event { now, what: What::Sweep(gone) },
            note,
        )),
{
    reveal(NodeView::facing);
    let e = Event { now, what: What::Sweep(gone) };
    let done = n.facing(e).1;
    let i = done.index_of(Deed::Report(note));
    assert(done[i] == Deed::Report(note));
    let told = n.mourning(now, gone);
    if i < told.len() {
        assert(done[i] == told[i]);
        assert(gone.contains(gone[i]));
        assert(vanishes(e, gone[i]));
    } else {
        let rest = n.bereft(now, gone.to_set());
        assert(rest.taking_over(now).1[i - told.len()] == done[i]);
    }
}

proof fn lemma_hearing_tells_of_members(n: NodeView, e: Event, note: Note)
    requires
        e.what is Heard,
        n.facing(e).1.contains(Deed::Report(note)),
    ensures
        is_other_kind(note.kind) || ((note.kind == "joined"@ || note.kind == "left"@) && has_cause(
            n,
            e,
            note,
        )),
{
    reveal(NodeView::facing);
    lemma_kinds();
    let done = n.facing(e).1;
    let i = done.index_of(Deed::Report(note));
    assert(done[i] == Deed::Report(note));
    match e.what {
        What::Heard { source, data, connected } => {
            let (p, said) = (source->0, said_in(data)->0);
            let (noticed, first) = n.noticing(p, said, e.now);
            let more = noticed.acting_on(p, said, e.now, connected).1;
            assert(done == first + more);
            assert(n.hears(e, p));
            if i < first.len() {
                assert(first[i] == done[i]);
                assert(n.sees_join(e, p));
                assert(note == joined_note(said.label(), p));
            } else {
                assert(more[i - first.len()] == done[i]);
                lemma_acting_tells_of_members(noticed, p, said, e.now, connected, note);
                if note.kind == "left"@ {
                    assert(n.hears_goodbye(e, p));
                    assert(noticed.members.dom().contains(p));
                    assert(n.members.dom().contains(p));
                    assert(noticed.members[p].label == n.members[p].label);
                    assert(noticed.members[p].joined == n.members[p].joined);
                }
            }
        },
        _ => {},
    }
}

proof fn lemma_acting_tells_of_members(
    n: NodeView,
    p: Seq<u8>,
    said: Said,
    now: u128,
    connected: Set<Seq<u8>>,
    note: Note,
)
    requires
        n.acting_on(p, said, now, connected).1.contains(Deed::Report(note)),
    ensures
        is_other_kind(note.kind) || {
            &&& note.kind == "left"@
            &&& said is Departing
            &&& n.members.dom().contains(p)
            &&& note == left_note(
                n.members[p].label,
                p,
                elapsed(now, n.members[p].joined) as nat,
            )
        },
{
    let done = n.acting_on(p, said, now, connected).1;
    let i = done.index_of(Deed::Report(note));
    assert(done[i] == Deed::Report(note));
}

/// Whatever is reported of who is in the mesh, there is a cause for it.
proof fn lemma_every_report_has_a_cause(n: NodeView, e: Event, note: Note)
    requires
        n.facing(e).1.contains(Deed::Report(note)),
        is_membership_kind(note.kind),
    ensures
        has_cause(n, e, note),
        note.kind == "vanished"@ <==> e.what is Sweep,
        note.kind != "vanished"@ <==> e.what is Heard,
{
    lemma_kinds();
    match e.what {
        What::Tick(res) => {
            lemma_ticks_tell_nothing_of_members(n, e.now, res, note);
        },
        What::Sweep(gone) => {
            lemma_sweeps_tell_of_the_vanished(n, e.now, gone, note);
        },
        What::Heard { .. } => {
            lemma_hearing_tells_of_members(n, e, note);
        },
        _ => {
            lemma_the_rest_tells_nothing_of_members(n, e, note);
        },
    }
}

proof fn lemma_the_rest_tells_nothing_of_members(n: NodeView, e: Event, note: Note)
    requires
        !(e.what is Tick),
        !(e.what is Sweep),
        !(e.what is Heard),
        n.facing(e).1.contains(Deed::Report(note)),
    ensures
        is_other_kind(note.kind),
{
    reveal(NodeView::facing);
    let done = n.facing(e).1;
    let i = done.index_of(Deed::Report(note));
    assert(done[i] == Deed::Report(note));
    if let What::Found(found) = e.what {
        if n.mdns {
            lemma_meeting_is_quiet(n, found, i);
        }
    }
}

/// Whether the event at `i` is `peer` joining, and the node says so.
pub open spec fn was_joined(n: NodeView, events: Seq<Event>, i: int, peer: Seq<u8>) -> bool {
    &&& before_event(n, events, i).sees_join(events[i], peer)
    &&& exists|label: Seq<char>| #[trigger]
        done_about(n, events, i).contains(Deed::Report(joined_note(label, peer)))
}

proof fn lemma_joining_is_reported(n: NodeView, events: Seq<Event>, i: int, p: Seq<u8>)
    requires
        before_event(n, events, i).sees_join(events[i], p),
    ensures
        was_joined(n, events, i, p),
{
    reveal(NodeView::facing);
    let (now, e) = (before_event(n, events, i), events[i]);
    let said = said_in(e.what->data)->0;
    let done = done_about(n, events, i);
    let first = now.noticing(p, said, e.now).1;
    assert(first[0] == Deed::Report(joined_note(said.label(), p)));
    assert(done[0] == first[0]);
    assert(done.contains(Deed::Report(joined_note(said.label(), p))));
}

/// Whether the event at `j` finds that nothing has been understood from `peer`
/// for longer than a peer may be silent.
pub open spec fn silent_by(n: NodeView, events: Seq<Event>, j: int, peer: Seq<u8>) -> bool {
    forall|m: int|
        0 <= m < j && before_event(n, events, m).hears(#[trigger] events[m], peer) ==> elapsed(
            events[j].now,
            events[m].now,
        ) > n.detect
}

/// Over the whole run of a node that began alone, whoever is reported vanished
/// was reported to have joined, has been a member since, and has been silent for
/// longer than the detection window; and it vanished in a sweep.
pub proof fn only_silent_members_vanish(n: NodeView, events: Seq<Event>, j: int, note: Note)
    requires
        may_live(n, events),
        n.members == Map::<Seq<u8>, crate::work::Membership>::empty(),
        0 <= j < events.len(),
        done_about(n, events, j).contains(Deed::Report(note)),
        note.kind == "vanished"@,
    ensures
        exists|p: Seq<u8>, i: int|
            {
                &&& 0 <= i < j
                &&& vanishes(events[j], p)
                &&& note == vanished_note(
                    before_event(n, events, j).members[p].label,
                    p,
                    elapsed(
                        events[j].now,
                        before_event(n, events, j).members[p].last_heard,
                    ) as nat,
                    before_event(n, events, j).members[p].disconnected,
                    elapsed(events[j].now, before_event(n, events, j).members[p].joined) as nat,
                )
                &&& #[trigger] was_joined(n, events, i, p)
                &&& forall|m: int|
                    i < m <= j ==> (#[trigger] before_event(n, events, m)).members.dom().contains(
                        p,
                    )
                &&& silent_by(n, events, j, p)
            },
{
    let now = before_event(n, events, j);
    lemma_every_report_has_a_cause(now, events[j], note);
    let p = choose|p: Seq<u8>| #[trigger]
        vanishes(events[j], p) && note == vanished_note(
            now.members[p].label,
            p,
            elapsed(events[j].now, now.members[p].last_heard) as nat,
            now.members[p].disconnected,
            elapsed(events[j].now, now.members[p].joined) as nat,
        );
    lemma_swept_are_silent(n, events, j, p);
    lemma_start(n, events);
    let i = lemma_joined_in_between(n, events, p, 0, j);
    lemma_joining_is_reported(n, events, i, p);
}

proof fn lemma_swept_are_silent(n: NodeView, events: Seq<Event>, j: int, p: Seq<u8>)
    requires
        may_live(n, events),
        0 <= j < events.len(),
        vanishes(events[j], p),
    ensures
        before_event(n, events, j).members.dom().contains(p),
        n.members == Map::<Seq<u8>, crate::work::Membership>::empty() ==> silent_by(
            n,
            events,
            j,
            p,
        ),
{
    reveal(NodeView::may_face);
    let now = before_event(n, events, j);
    lemma_from_the_start(n, events, j);
    assert(now.may_face(events[j]));
    let gone = events[j].what->Sweep_0;
    assert(gone.to_set().contains(p));
    assert(now.silent(events[j].now).contains(p));
    if n.members == Map::<Seq<u8>, crate::work::Membership>::empty() {
        lemma_last_heard(n, events, p, j);
    }
}

/// Over a whole run, whoever said goodbye is not reported vanished unless it was
/// reported to have joined again in between.
pub proof fn nobody_vanishes_after_a_goodbye(
    n: NodeView,
    events: Seq<Event>,
    i: int,
    j: int,
    p: Seq<u8>,
)
    requires
        may_live(n, events),
        0 <= i < j < events.len(),
        before_event(n, events, i).hears_goodbye(events[i], p),
        vanishes(events[j], p),
    ensures
        exists|k: int| i < k < j && #[trigger] was_joined(n, events, k, p),
{
    lemma_next(n, events, i);
    lemma_membership(before_event(n, events, i), events[i], p);
    lemma_swept_are_silent(n, events, j, p);
    let k = lemma_joined_in_between(n, events, p, i + 1, j);
    lemma_joining_is_reported(n, events, k, p);
}

/// A member that says goodbye is reported to have left; a stranger that does is
/// reported neither to have joined nor to have left; and neither is reported to
/// have vanished.
pub proof fn a_goodbye_is_reported_of_members_only(n: NodeView, e: Event, p: Seq<u8>)
    requires
        n.hears_goodbye(e, p),
    ensures
        n.members.dom().contains(p) ==> n.facing(e).1.contains(
            Deed::Report(
                left_note(n.members[p].label, p, elapsed(e.now, n.members[p].joined) as nat),
            ),
        ),
        forall|note: Note|
            #![trigger n.facing(e).1.contains(Deed::Report(note))]
            n.facing(e).1.contains(Deed::Report(note)) && is_membership_kind(note.kind)
                ==> n.members.dom().contains(p) && note.kind == "left"@,
{
    lemma_kinds();
    assert forall|note: Note|
        #![trigger n.facing(e).1.contains(Deed::Report(note))]
        n.facing(e).1.contains(Deed::Report(note)) && is_membership_kind(note.kind) implies
        n.members.dom().contains(p) && note.kind == "left"@ by {
        lemma_every_report_has_a_cause(n, e, note);
    }
    if n.members.dom().contains(p) {
        lemma_leaving_is_reported(n, e, p);
    }
}

proof fn lemma_leaving_is_reported(n: NodeView, e: Event, p: Seq<u8>)
    requires
        n.hears_goodbye(e, p),
        n.members.dom().contains(p),
    ensures
        n.facing(e).1.contains(
            Deed::Report(
                left_note(n.members[p].label, p, elapsed(e.now, n.members[p].joined) as nat),
            ),
        ),
{
    reveal(NodeView::facing);
    let said = said_in(e.what->data)->0;
    let (noticed, first) = n.noticing(p, said, e.now);
    let more = noticed.parting(p, e.now).1;
    let done = n.facing(e).1;
    assert(first.len() == 0);
    assert(more[0] == Deed::Report(
        left_note(n.members[p].label, p, elapsed(e.now, n.members[p].joined) as nat),
    ));
    assert(done[0] == more[0]);
}

} // verus!
