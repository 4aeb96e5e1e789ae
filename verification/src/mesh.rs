//! What a node of a mesh knows, and how that changes with what happens.
//!
//! Everything here is mathematics: values, and what becomes of them. The node
//! that runs is in `node`, and does exactly this.
use crate::digest::sha256_of;
use crate::job::{world_bytes, Job, JobError, Outcome};
use crate::message::{checkpoint_bytes, heartbeat_bytes, observed_bytes, said_in, Said};
use crate::notice::{
    all_reached_note, claimed_note, connected_note, dialling_note, effect_note, job_failed_note,
    job_owner_note, joined_note, learned_peer_note, left_note, my_address_note,
    port_map_failed_note, port_mapped_note, redialling_note, took_over_note, vanished_note,
    yielded_note, Note,
};
use crate::portmap::Mapping;
use crate::text::{holds_part, lines};
use crate::utf8::lossy_text;
use crate::work::{stock_notes, stocked, takes_over, yields, Duty, Membership};
use vstd::prelude::*;

verus! {

/// Something to do, as values.
#[verifier::ext_equal]
pub enum Deed {
    Publish(Seq<u8>),
    Dial(Seq<char>),
    Introduce(Seq<u8>),
    Report(Note),
}

/// Reporting each of these.
pub open spec fn reporting(told: Seq<Note>) -> Seq<Deed> {
    Seq::new(told.len(), |i: int| Deed::Report(told[i]))
}

/// Dialling each of these.
pub open spec fn dials(addresses: Seq<Seq<char>>) -> Seq<Deed> {
    Seq::new(addresses.len(), |i: int| Deed::Dial(addresses[i]))
}

/// These addresses but for one.
pub open spec fn without(addresses: Seq<Seq<char>>, addr: Seq<char>) -> Seq<Seq<char>>
    decreases addresses.len(),
{
    if addresses.len() == 0 {
        Seq::empty()
    } else if addresses.last() == addr {
        without(addresses.drop_last(), addr)
    } else {
        without(addresses.drop_last(), addr).push(addresses.last())
    }
}

/// `pending`, and behind it those of `known` that were not pending yet.
pub open spec fn resuming(pending: Seq<Seq<char>>, known: Seq<Seq<char>>) -> Seq<Seq<char>>
    decreases known.len(),
{
    if known.len() == 0 {
        pending
    } else {
        let before = resuming(pending, known.drop_last());
        if before.contains(known.last()) {
            before
        } else {
            before.push(known.last())
        }
    }
}

/// How long ago `then` was, and nothing if it is still to come.
pub open spec fn elapsed(now: u128, then: u128) -> u128 {
    if now >= then {
        (now - then) as u128
    } else {
        0
    }
}

/// What a node knows, as values. Instants and spans are in nanoseconds.
#[verifier::ext_equal]
pub struct NodeView {
    /// The name by which the node is known.
    pub label: Seq<char>,
    /// The port that it listens on.
    pub port: u16,
    /// Whether it looks for peers on the local network.
    pub mdns: bool,
    /// How long a peer may be silent before it is presumed gone.
    pub detect: u128,
    pub me: Seq<u8>,
    /// The addresses that it is trying to reach and has not reached yet.
    pub pending: Seq<Seq<char>>,
    /// The addresses at which each peer was reached.
    pub reached_by: Map<Seq<u8>, Seq<Seq<char>>>,
    pub dial_attempts: u32,
    /// Where it can currently see each peer.
    pub seen_at: Map<Seq<u8>, Seq<char>>,
    /// Where others can see it.
    pub my_address: Option<Seq<char>>,
    /// What the router agreed to.
    pub mapping: Option<Mapping>,
    pub work: Option<Duty>,
    /// Who is in the mesh.
    pub members: Map<Seq<u8>, Membership>,
    /// How many heartbeats it has sent.
    pub counter: u64,
}

impl NodeView {
    /// A node is not a member of its own mesh: it must never treat itself as a
    /// peer.
    pub open spec fn sound(self) -> bool {
        !self.members.dom().contains(self.me)
    }

    /// A node that knows nobody yet. A node told to run its job listens first:
    /// for three times as long as a peer may be silent.
    pub open spec fn newborn(
        label: Seq<char>,
        port: u16,
        mdns: bool,
        detect: u128,
        me: Seq<u8>,
        dial: Seq<Seq<char>>,
        job: Option<Job>,
        own: bool,
        now: u128,
    ) -> NodeView {
        NodeView {
            label,
            port,
            mdns,
            detect,
            me,
            pending: dial,
            reached_by: Map::empty(),
            dial_attempts: 0,
            seen_at: Map::empty(),
            my_address: None,
            mapping: None,
            work: match job {
                Some(job) => Some(
                    Duty {
                        job,
                        ledger: Set::empty(),
                        owner: None,
                        state: Seq::empty(),
                        tick: 0,
                        owner_lost_at: None,
                        claim_after: if own {
                            Some((now + 3 * detect) as u128)
                        } else {
                            None
                        },
                    },
                ),
                None => None,
            },
            members: Map::empty(),
            counter: 0,
        }
    }

    /// Whether this node runs the job.
    pub open spec fn runs(self) -> bool {
        self.work matches Some(duty) && duty.owner == Some(self.me)
    }

    /// Another attempt at every pending address. Reported the first time, and
    /// every fifteenth.
    pub open spec fn dialled(self) -> (NodeView, Seq<Deed>) {
        let attempts = (self.dial_attempts + 1) as u32;
        (
            NodeView { dial_attempts: attempts, ..self },
            dials(self.pending) + if attempts == 1 || attempts % 15 == 0 {
                seq![Deed::Report(dialling_note(self.pending.len(), attempts as nat))]
            } else {
                Seq::empty()
            },
        )
    }

    /// The router answered, or did not. An agreement is reported when it is
    /// news; a failure every time.
    pub open spec fn mapped(self, answer: Result<Mapping, Seq<char>>) -> (NodeView, Seq<Deed>) {
        match answer {
            Ok(now) => if self.mapping == Some(now) {
                (self, Seq::empty())
            } else {
                (
                    NodeView { mapping: Some(now), ..self },
                    seq![
                        Deed::Report(
                            port_mapped_note(
                                now.external_ip,
                                now.external_port as nat,
                                now.lifetime as nat,
                                now.external_port == self.port,
                            ),
                        ),
                    ],
                )
            },
            Err(error) => (
                NodeView { mapping: None, ..self },
                seq![Deed::Report(port_map_failed_note(error, self.mapping is Some))],
            ),
        }
    }

    /// Telling everyone where each of these peers can be seen.
    pub open spec fn announcing(self, peers: Seq<Seq<u8>>) -> Seq<Deed> {
        Seq::new(
            peers.len(),
            |i: int| Deed::Publish(observed_bytes(self.label, peers[i], self.seen_at[peers[i]])),
        )
    }

    /// Another heartbeat.
    pub open spec fn beating(self) -> (NodeView, Seq<Deed>) {
        let counter = (self.counter + 1) as u64;
        (
            NodeView { counter, ..self },
            seq![Deed::Publish(heartbeat_bytes(self.label, counter))],
        )
    }

    /// Whether it is time to claim a job that nobody runs.
    pub open spec fn may_claim(self, now: u128) -> bool {
        self.work matches Some(duty) && duty.owner is None && duty.claim_after is Some && now
            >= duty.claim_after->0
    }

    /// Claiming the job, if it is time.
    pub open spec fn claiming(self, now: u128) -> (NodeView, Seq<Deed>) {
        if self.may_claim(now) {
            let duty = self.work->0;
            (
                NodeView {
                    work: Some(Duty { claim_after: None, owner: Some(self.me), ..duty }),
                    ..self
                },
                seq![Deed::Report(claimed_note(duty.tick as nat))],
            )
        } else {
            (self, Seq::empty())
        }
    }

    /// A tick of the job came to this. Effects are reported with the tick that
    /// produced them, what was made goes into the ledger, and the new state is
    /// published for everyone. A job that fails is given up rather than tried
    /// again and again.
    pub open spec fn ticked(self, res: Result<Outcome, JobError>) -> (NodeView, Seq<Deed>) {
        let duty = self.work->0;
        match res {
            Ok(outcome) => {
                let tick = (duty.tick + 1) as u64;
                let effects = lines(lossy_text(outcome.effects@));
                let id = sha256_of(duty.job.code());
                (
                    NodeView {
                        work: Some(
                            Duty {
                                state: outcome.state@,
                                tick,
                                ledger: stocked(duty.ledger, id, tick, effects),
                                ..duty
                            },
                        ),
                        ..self
                    },
                    reporting(effect_notes(tick, effects)) + reporting(
                        stock_notes(duty.ledger, id, tick, effects),
                    ) + seq![Deed::Publish(checkpoint_bytes(self.label, tick, outcome.state@))],
                )
            },
            Err(error) => (
                NodeView { work: Some(Duty { owner: None, ..duty }), ..self },
                seq![Deed::Report(job_failed_note(error.spec_message(), duty.tick as nat))],
            ),
        }
    }

    /// The members that have been silent for too long.
    pub open spec fn silent(self, now: u128) -> Set<Seq<u8>> {
        Set::new(
            |p: Seq<u8>|
                self.members.dom().contains(p) && elapsed(now, self.members[p].last_heard)
                    > self.detect,
        )
    }

    /// Reporting that each of these vanished.
    pub open spec fn mourning(self, now: u128, gone: Seq<Seq<u8>>) -> Seq<Deed> {
        Seq::new(
            gone.len(),
            |i: int|
                {
                    let member = self.members[gone[i]];
                    Deed::Report(
                        vanished_note(
                            member.label,
                            gone[i],
                            elapsed(now, member.last_heard) as nat,
                            member.disconnected,
                            elapsed(now, member.joined) as nat,
                        ),
                    )
                },
        )
    }

    /// Without these members. A job that one of them ran has lost its owner.
    pub open spec fn bereft(self, now: u128, gone: Set<Seq<u8>>) -> NodeView {
        NodeView {
            members: self.members.remove_keys(gone),
            work: match self.work {
                Some(duty) => Some(
                    if duty.owner is Some && gone.contains(duty.owner->0) {
                        Duty { owner: None, owner_lost_at: Some(now), ..duty }
                    } else {
                        duty
                    },
                ),
                None => None,
            },
            ..self
        }
    }

    /// Continuing the job, if this node is the one that should.
    pub open spec fn taking_over(self, now: u128) -> (NodeView, Seq<Deed>) {
        let duty = self.work->0;
        if takes_over(self.me, self.members.dom()) {
            let gap = match duty.owner_lost_at {
                Some(at) => elapsed(now, at),
                None => 0,
            };
            (
                NodeView {
                    work: Some(Duty { owner: Some(self.me), owner_lost_at: None, ..duty }),
                    ..self
                },
                seq![
                    Deed::Report(
                        took_over_note(
                            duty.tick as nat,
                            gap as nat,
                            duty.state.len(),
                            self.members.dom().len() + 1,
                        ),
                    ),
                ],
            )
        } else {
            (self, Seq::empty())
        }
    }

    /// Those who fell silent are gone, in this order. The election comes after
    /// the whole sweep, so the decision is made against the final membership.
    pub open spec fn swept(self, now: u128, gone: Seq<Seq<u8>>) -> (NodeView, Seq<Deed>) {
        let rest = self.bereft(now, gone.to_set());
        if rest.work is Some && rest.work->0.owner is None && rest.work->0.owner_lost_at is Some {
            let (next, more) = rest.taking_over(now);
            (next, self.mourning(now, gone) + more)
        } else {
            (rest, self.mourning(now, gone))
        }
    }

    /// The addresses at which a peer was reached so far.
    pub open spec fn known_routes(self, peer: Seq<u8>) -> Seq<Seq<char>> {
        if self.reached_by.dom().contains(peer) {
            self.reached_by[peer]
        } else {
            Seq::empty()
        }
    }

    /// A peer was reached at `reached`, at the address `dialled` if this node
    /// did the dialling. That address is no longer pending and is remembered;
    /// everyone is told where the peer can be seen.
    pub open spec fn met(
        self,
        peer: Seq<u8>,
        dialled: Option<Seq<char>>,
        reached: Seq<char>,
    ) -> (NodeView, Seq<Deed>) {
        let pending = match dialled {
            Some(addr) => without(self.pending, addr),
            None => self.pending,
        };
        let reached_by = match dialled {
            Some(addr) => {
                let known = self.known_routes(peer);
                self.reached_by.insert(
                    peer,
                    if known.contains(addr) {
                        known
                    } else {
                        known.push(addr)
                    },
                )
            },
            None => self.reached_by,
        };
        (
            NodeView {
                pending,
                reached_by,
                seen_at: self.seen_at.insert(peer, reached),
                ..self
            },
            seq![
                Deed::Report(
                    connected_note(peer, reached, self.dial_attempts as nat, pending.len()),
                ),
            ] + if self.pending.len() > 0 && pending.len() == 0 {
                seq![Deed::Report(all_reached_note())]
            } else {
                Seq::empty()
            } + seq![Deed::Publish(observed_bytes(self.label, peer, reached))],
        )
    }

    /// Peers were found on the local network. A node finds its own
    /// advertisements too, and must not act on them.
    pub open spec fn meeting(self, found: Seq<(Seq<u8>, Seq<char>)>) -> Seq<Deed>
        decreases found.len(),
    {
        if found.len() == 0 {
            Seq::empty()
        } else {
            let before = self.meeting(found.drop_last());
            let (peer, addr) = found.last();
            if peer == self.me {
                before
            } else {
                before.push(Deed::Introduce(peer)).push(Deed::Dial(addr))
            }
        }
    }

    /// A peer said something. Anything heard from a peer proves it is alive,
    /// whatever it had to say; and a newcomer is answered at once, unless it
    /// only came to say goodbye.
    pub open spec fn noticing(self, source: Seq<u8>, said: Said, now: u128) -> (
        NodeView,
        Seq<Deed>,
    ) {
        if self.members.dom().contains(source) {
            let member = self.members[source];
            (
                NodeView {
                    members: self.members.insert(
                        source,
                        Membership { last_heard: now, disconnected: false, ..member },
                    ),
                    ..self
                },
                Seq::empty(),
            )
        } else if said is Departing {
            (self, Seq::empty())
        } else {
            let counter = (self.counter + 1) as u64;
            (
                NodeView {
                    members: self.members.insert(
                        source,
                        Membership {
                            label: said.label(),
                            joined: now,
                            last_heard: now,
                            disconnected: false,
                        },
                    ),
                    counter,
                    ..self
                },
                seq![
                    Deed::Report(joined_note(said.label(), source)),
                    Deed::Publish(heartbeat_bytes(self.label, counter)),
                ],
            )
        }
    }

    /// A peer said goodbye. An announced departure needs no detection window:
    /// the mesh knows at once and can hand work over before anything stalls.
    pub open spec fn parting(self, source: Seq<u8>, now: u128) -> (NodeView, Seq<Deed>) {
        let farewell = if self.members.dom().contains(source) {
            let member = self.members[source];
            seq![
                Deed::Report(
                    left_note(member.label, source, elapsed(now, member.joined) as nat),
                ),
            ]
        } else {
            Seq::empty()
        };
        let rest = self.bereft(now, set![source]);
        if self.work is Some && self.work->0.owner == Some(source) {
            let (next, more) = rest.taking_over(now);
            (next, farewell + more)
        } else {
            (rest, farewell)
        }
    }

    /// A peer said where another can be seen. Hearing itself described is how a
    /// node learns its own address; anyone else is dialled at once, unless this
    /// node is already connected or already trying.
    pub open spec fn learning(
        self,
        label: Seq<char>,
        peer: Seq<u8>,
        addr: Seq<char>,
        connected: Set<Seq<u8>>,
    ) -> (NodeView, Seq<Deed>) {
        if peer == self.me {
            if self.my_address == Some(addr) {
                (self, Seq::empty())
            } else {
                (
                    NodeView { my_address: Some(addr), ..self },
                    seq![Deed::Report(my_address_note(label, addr))],
                )
            }
        } else if connected.contains(peer) || self.pending.contains(addr) {
            (self, Seq::empty())
        } else {
            (
                NodeView { pending: self.pending.push(addr), ..self },
                seq![Deed::Report(learned_peer_note(label, peer, addr)), Deed::Dial(addr)],
            )
        }
    }

    /// A peer published a checkpoint, so it runs the job and this node has no
    /// cause to claim it. Where both run it, the rule decides. An older
    /// checkpoint arriving late never undoes completed work.
    pub open spec fn following(
        self,
        source: Seq<u8>,
        label: Seq<char>,
        tick: u64,
        state: Seq<u8>,
    ) -> (NodeView, Seq<Deed>) {
        match self.work {
            None => (self, Seq::empty()),
            Some(duty) => {
                let waiting = Duty { claim_after: None, ..duty };
                if self.runs() && !yields((duty.tick, self.me), (tick, source)) {
                    (NodeView { work: Some(waiting), ..self }, Seq::empty())
                } else {
                    let told = if self.runs() {
                        seq![
                            Deed::Report(
                                yielded_note(label, source, tick as nat, duty.tick as nat),
                            ),
                        ]
                    } else if duty.owner != Some(source) {
                        seq![Deed::Report(job_owner_note(label, source))]
                    } else {
                        Seq::empty()
                    };
                    let followed = Duty { owner: Some(source), owner_lost_at: None, ..waiting };
                    (
                        NodeView {
                            work: Some(
                                if tick >= duty.tick {
                                    Duty { tick, state, ..followed }
                                } else {
                                    followed
                                },
                            ),
                            ..self
                        },
                        told,
                    )
                }
            },
        }
    }

    /// What a message means once its sender has been noticed.
    pub open spec fn acting_on(
        self,
        source: Seq<u8>,
        said: Said,
        now: u128,
        connected: Set<Seq<u8>>,
    ) -> (NodeView, Seq<Deed>) {
        match said {
            Said::Heartbeat { .. } => (self, Seq::empty()),
            Said::Departing { .. } => self.parting(source, now),
            Said::Observed { label, peer, addr } => self.learning(label, peer, addr, connected),
            Said::Checkpoint { label, tick, state } => self.following(source, label, tick, state),
        }
    }

    /// A peer said this.
    pub open spec fn hearing(
        self,
        source: Seq<u8>,
        said: Said,
        now: u128,
        connected: Set<Seq<u8>>,
    ) -> (NodeView, Seq<Deed>) {
        let (noticed, first) = self.noticing(source, said, now);
        let (next, more) = noticed.acting_on(source, said, now, connected);
        (next, first + more)
    }

    /// Bytes came in from somebody, perhaps. What nobody signed, what this node
    /// sent itself and what it does not understand is ignored.
    pub open spec fn receiving(
        self,
        source: Option<Seq<u8>>,
        data: Seq<u8>,
        now: u128,
        connected: Set<Seq<u8>>,
    ) -> (NodeView, Seq<Deed>) {
        if source is None || source == Some(self.me) || said_in(data) is None {
            (self, Seq::empty())
        } else {
            self.hearing(source->0, said_in(data)->0, now, connected)
        }
    }

    /// A connection to a peer closed, and so many are left. Once none is, the
    /// transport is gone: nobody is told any more where to find the peer, and
    /// every address at which it was reached is tried again.
    pub open spec fn parted(self, peer: Seq<u8>, remaining: u32) -> (NodeView, Seq<Deed>) {
        if remaining > 0 {
            (self, Seq::empty())
        } else {
            let members = if self.members.dom().contains(peer) {
                self.members.insert(
                    peer,
                    Membership { disconnected: true, ..self.members[peer] },
                )
            } else {
                self.members
            };
            let pending = resuming(self.pending, self.known_routes(peer));
            let resumed = (pending.len() - self.pending.len()) as nat;
            let quiet = NodeView {
                members,
                seen_at: self.seen_at.remove(peer),
                pending,
                ..self
            };
            if resumed > 0 {
                (
                    NodeView { dial_attempts: 0, ..quiet },
                    seq![Deed::Report(redialling_note(peer, resumed))],
                )
            } else {
                (quiet, Seq::empty())
            }
        }
    }
}

/// Reporting each of these effects.
pub open spec fn effect_notes(tick: u64, effects: Seq<Seq<char>>) -> Seq<Note> {
    Seq::new(effects.len(), |i: int| effect_note(tick as nat, effects[i]))
}

/// Whether a tick of `duty` can come to `res`.
pub open spec fn may_come_to(duty: Duty, res: Result<Outcome, JobError>) -> bool {
    duty.job.may_end(duty.state, world_bytes(duty.tick), res)
}

/// Whether a failed attempt to dial is worth a word. Attempts time out
/// constantly while two sides are trying to meet, and that changes nothing that
/// anyone would conclude.
pub open spec fn worth_telling(reason: Seq<char>) -> bool {
    !holds_part(reason, "Timeout"@) && !holds_part(reason, "timed out"@)
}

/// A node listens before it runs anything. It starts out alone and running
/// nothing; it claims its job only if it was told to, and only once it has
/// listened for three detection windows.
pub proof fn a_node_listens_before_it_claims(
    label: Seq<char>,
    port: u16,
    mdns: bool,
    detect: u128,
    me: Seq<u8>,
    dial: Seq<Seq<char>>,
    job: Option<Job>,
    own: bool,
    now: u128,
    later: u128,
)
    requires
        now + 3 * detect <= u128::MAX,
    ensures
        ({
            let node = NodeView::newborn(label, port, mdns, detect, me, dial, job, own, now);
            &&& node.sound()
            &&& !node.runs()
            &&& node.may_claim(later) == (own && job is Some && later >= now + 3 * detect)
            &&& node.claiming(later).0.runs() == node.may_claim(later)
        }),
{
}

/// Whatever a node hears, finds or loses, it never becomes a member of its own
/// mesh.
pub proof fn a_node_never_counts_itself(
    n: NodeView,
    source: Option<Seq<u8>>,
    data: Seq<u8>,
    peer: Seq<u8>,
    gone: Seq<Seq<u8>>,
    now: u128,
    connected: Set<Seq<u8>>,
    remaining: u32,
)
    requires
        n.sound(),
    ensures
        n.receiving(source, data, now, connected).0.sound(),
        n.swept(now, gone).0.sound(),
        n.parted(peer, remaining).0.sound(),
{
}

/// Whatever a node hears, the tick that it knows of never goes back: a
/// checkpoint that arrives late never undoes completed work.
pub proof fn work_is_never_undone(
    n: NodeView,
    source: Option<Seq<u8>>,
    data: Seq<u8>,
    now: u128,
    connected: Set<Seq<u8>>,
)
    requires
        n.work is Some,
    ensures
        ({
            let next = n.receiving(source, data, now, connected).0;
            &&& next.work is Some
            &&& next.work->0.tick >= n.work->0.tick
            &&& next.work->0.tick == n.work->0.tick ==> (next.work->0.state == n.work->0.state
                || (said_in(data) matches Some(Said::Checkpoint { tick, .. }) && tick
                == n.work->0.tick))
        }),
{
}

/// Anything understood from a peer, but for a goodbye, proves that it is alive:
/// it is a member, and it is not taken for gone until it has been silent for
/// longer than the detection window.
pub proof fn whoever_is_heard_is_alive(
    n: NodeView,
    source: Seq<u8>,
    data: Seq<u8>,
    now: u128,
    connected: Set<Seq<u8>>,
    later: u128,
)
    requires
        source != n.me,
        said_in(data) is Some,
        !(said_in(data)->0 is Departing),
        elapsed(later, now) <= n.detect,
    ensures
        ({
            let next = n.receiving(Some(source), data, now, connected).0;
            &&& next.members.dom().contains(source)
            &&& next.members[source].last_heard == now
            &&& !next.silent(later).contains(source)
        }),
{
}

/// A goodbye is heeded at once: whoever said it is no longer a member, and does
/// not run the job.
pub proof fn a_goodbye_is_heeded_at_once(
    n: NodeView,
    source: Seq<u8>,
    data: Seq<u8>,
    now: u128,
    connected: Set<Seq<u8>>,
)
    requires
        source != n.me,
        said_in(data) is Some,
        said_in(data)->0 is Departing,
    ensures
        ({
            let next = n.receiving(Some(source), data, now, connected).0;
            &&& !next.members.dom().contains(source)
            &&& next.work matches Some(duty) ==> duty.owner != Some(source)
        }),
{
}

/// A sweep takes exactly the silent for gone. Everyone else is left as they
/// were, and nobody is left who has been silent for too long.
pub proof fn only_the_silent_are_gone(n: NodeView, now: u128, gone: Seq<Seq<u8>>)
    requires
        gone.to_set() == n.silent(now),
    ensures
        ({
            let next = n.swept(now, gone).0;
            &&& next.members == n.members.remove_keys(n.silent(now))
            &&& next.silent(now) == Set::<Seq<u8>>::empty()
        }),
{
    let next = n.swept(now, gone).0;
    assert(next.silent(now) =~= Set::<Seq<u8>>::empty());
}

/// Work whose owner vanished is continued at once by the node whose turn it is,
/// from the last state that it heard of, and by no other.
pub proof fn lost_work_is_continued(n: NodeView, now: u128, gone: Seq<Seq<u8>>)
    requires
        n.sound(),
        gone.to_set() == n.silent(now),
        n.work is Some,
        n.work->0.owner is Some,
        n.silent(now).contains(n.work->0.owner->0),
    ensures
        ({
            let next = n.swept(now, gone).0;
            &&& next.runs() == takes_over(
                n.me,
                n.members.remove_keys(n.silent(now)).dom(),
            )
            &&& next.work->0.tick == n.work->0.tick
            &&& next.work->0.state == n.work->0.state
        }),
{
}

/// Two nodes that both run the job, each hearing the other's checkpoint, become
/// one: exactly one of them goes on running it, and the other knows it as the
/// owner, with all of its work.
pub proof fn two_runners_become_one(a: NodeView, b: NodeView, label_a: Seq<char>, label_b: Seq<char>)
    requires
        a.me != b.me,
        a.runs(),
        b.runs(),
    ensures
        ({
            let next_a = a.following(b.me, label_b, b.work->0.tick, b.work->0.state).0;
            let next_b = b.following(a.me, label_a, a.work->0.tick, a.work->0.state).0;
            &&& next_a.runs() == !next_b.runs()
            &&& next_a.runs() ==> {
                &&& next_b.work->0.owner == Some(a.me)
                &&& next_b.work->0.tick == next_a.work->0.tick
                &&& next_b.work->0.state == next_a.work->0.state
            }
            &&& next_b.runs() ==> {
                &&& next_a.work->0.owner == Some(b.me)
                &&& next_a.work->0.tick == next_b.work->0.tick
                &&& next_a.work->0.state == next_b.work->0.state
            }
        }),
{
    crate::work::exactly_one_of_two_yields(a.work->0.tick, a.me, b.work->0.tick, b.me);
}

/// A node that has heard a checkpoint never claims the job: somebody runs it,
/// or did.
pub proof fn a_checkpoint_ends_the_claim(
    n: NodeView,
    source: Seq<u8>,
    data: Seq<u8>,
    now: u128,
    connected: Set<Seq<u8>>,
    later: u128,
)
    requires
        source != n.me,
        said_in(data) is Some,
        said_in(data)->0 is Checkpoint,
    ensures
        !n.receiving(Some(source), data, now, connected).0.may_claim(later),
{
}

proof fn lemma_without(addresses: Seq<Seq<char>>, addr: Seq<char>)
    ensures
        !without(addresses, addr).contains(addr),
        forall|a: Seq<char>|
            a != addr ==> #[trigger] without(addresses, addr).contains(a) == addresses.contains(a),
    decreases addresses.len(),
{
    if addresses.len() > 0 {
        let (rest, last) = (addresses.drop_last(), addresses.last());
        lemma_without(rest, addr);
        assert forall|a: Seq<char>| #[trigger] addresses.contains(a) == (rest.contains(a) || a
            == last) by {
            assert(addresses =~= rest.push(last));
            lemma_one_more(rest, last, a);
        }
        let before = without(rest, addr);
        assert forall|a: Seq<char>| #[trigger] before.push(last).contains(a) == (before.contains(a)
            || a == last) by {
            lemma_one_more(before, last, a);
        }
    }
}

proof fn lemma_one_more(s: Seq<Seq<char>>, last: Seq<char>, a: Seq<char>)
    ensures
        s.push(last).contains(a) == (s.contains(a) || a == last),
{
    let longer = s.push(last);
    if longer.contains(a) {
        let i = longer.index_of(a);
        if i < s.len() {
            assert(s[i] == a);
        }
    }
    if s.contains(a) {
        let i = s.index_of(a);
        assert(longer[i] == a);
    }
    assert(longer[s.len() as int] == last);
}

/// An address at which a peer answered is no longer dialled, and is remembered
/// as one of that peer's; every other address stays pending as it was.
pub proof fn a_reached_address_is_settled(
    n: NodeView,
    peer: Seq<u8>,
    dialled: Seq<char>,
    reached: Seq<char>,
)
    ensures
        ({
            let next = n.met(peer, Some(dialled), reached).0;
            &&& !next.pending.contains(dialled)
            &&& forall|a: Seq<char>|
                a != dialled ==> #[trigger] next.pending.contains(a) == n.pending.contains(a)
            &&& next.known_routes(peer).contains(dialled)
            &&& next.seen_at[peer] == reached
        }),
{
    lemma_without(n.pending, dialled);
    let known = n.known_routes(peer);
    lemma_one_more(known, dialled, dialled);
}

proof fn lemma_resuming(pending: Seq<Seq<char>>, known: Seq<Seq<char>>)
    ensures
        resuming(pending, known).len() >= pending.len(),
        forall|a: Seq<char>| #[trigger]
            resuming(pending, known).contains(a) == (pending.contains(a) || known.contains(a)),
    decreases known.len(),
{
    if known.len() > 0 {
        let (rest, last) = (known.drop_last(), known.last());
        lemma_resuming(pending, rest);
        let before = resuming(pending, rest);
        assert forall|a: Seq<char>| #[trigger] resuming(pending, known).contains(a) == (
        pending.contains(a) || known.contains(a)) by {
            assert(known =~= rest.push(last));
            lemma_one_more(rest, last, a);
            lemma_one_more(before, last, a);
        }
    }
}

/// A peer whose last connection closed is dialled again at every address at
/// which it was ever reached, and nobody is told any more where it can be seen.
pub proof fn a_lost_peer_is_dialled_again(n: NodeView, peer: Seq<u8>)
    ensures
        ({
            let next = n.parted(peer, 0).0;
            &&& forall|a: Seq<char>| #[trigger]
                next.pending.contains(a) == (n.pending.contains(a) || n.known_routes(
                    peer,
                ).contains(a))
            &&& !next.seen_at.dom().contains(peer)
        }),
{
    lemma_resuming(n.pending, n.known_routes(peer));
}

/// A node that finds its own advertisements on the local network does not act
/// on them.
pub proof fn nobody_is_introduced_to_themselves(n: NodeView, found: Seq<(Seq<u8>, Seq<char>)>)
    ensures
        !n.meeting(found).contains(Deed::Introduce(n.me)),
    decreases found.len(),
{
    if found.len() > 0 {
        nobody_is_introduced_to_themselves(n, found.drop_last());
        let before = n.meeting(found.drop_last());
        let all = n.meeting(found);
        if all.contains(Deed::Introduce(n.me)) {
            let i = all.index_of(Deed::Introduce(n.me));
            assert(all[i] == Deed::Introduce(n.me));
            assert(i < before.len());
            assert(before[i] == all[i]);
        }
    }
}

} // verus!
