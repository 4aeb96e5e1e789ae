//! What a node knows of its mesh, and what it does about what happens.
//!
//! The node decides; the program around it acts. Whatever happens is handed to
//! one of the functions here, and what comes back is what to do about it:
//! things to publish, addresses to dial, and reports to print.
use crate::job::{world_inputs, Job, JobError, Outcome};
use crate::ledger::Ledger;
use crate::mesh::{
    dials, effect_notes, elapsed, may_come_to, reporting, resuming, without, worth_telling, Deed,
    NodeView,
};
use crate::message::{
    departing_bytes, encode_checkpoint, encode_departing, encode_heartbeat, encode_observed,
    parse_message, Message,
};
use crate::notice::{
    all_reached, claimed, connected, dial_failed, dial_failed_note, dialling, effect, job_failed,
    job_owner, joined, learned_peer, left, my_address, port_map_failed, port_mapped, redialling,
    took_over, vanished, yielded, Note, Report,
};
use crate::peer::{is_peer, peer_in, peer_text, Address, PeerId};
use crate::peermap::PeerMap;
use crate::portmap::Mapping;
use crate::text::{holds_text, lines_of, texts};
use crate::utf8::read_lossy;
use crate::work::{notes, record_production, Duty, Member, Membership, Work};
use vstd::prelude::*;

verus! {

/// Something for the program around a node to do.
pub enum Action {
    /// Tell everyone in the mesh.
    Publish(Vec<u8>),
    /// Try to reach an address.
    Dial(Address),
    /// Make sure that this peer hears what is published.
    Introduce(PeerId),
    /// Print.
    Report(Report),
}

impl View for Action {
    type V = Deed;

    open spec fn view(&self) -> Deed {
        match self {
            Action::Publish(bytes) => Deed::Publish(bytes@),
            Action::Dial(addr) => Deed::Dial(addr@),
            Action::Introduce(peer) => Deed::Introduce(peer@),
            Action::Report(report) => Deed::Report(report@),
        }
    }
}

/// Things to do, as values.
pub open spec fn deeds(actions: Seq<Action>) -> Seq<Deed> {
    Seq::new(actions.len(), |i: int| actions[i]@)
}

fn nothing() -> (actions: Vec<Action>)
    ensures
        deeds(actions@) == Seq::<Deed>::empty(),
{
    let actions: Vec<Action> = Vec::new();
    assert(deeds(actions@) =~= Seq::<Deed>::empty());
    actions
}

fn act(actions: &mut Vec<Action>, action: Action)
    ensures
        deeds(final(actions)@) == deeds(old(actions)@).push(action@),
{
    actions.push(action);
    assert(deeds(actions@) =~= deeds(old(actions)@).push(action@));
}

fn act_reports(actions: &mut Vec<Action>, reports: Vec<Report>)
    ensures
        deeds(final(actions)@) == deeds(old(actions)@) + reporting(notes(reports@)),
{
    let ghost told = notes(reports@);
    let ghost before = deeds(actions@);
    let mut rest = reports;
    let mut kept: Vec<Report> = Vec::new();
    while rest.len() > 0
        invariant
            told.len() == rest@.len() + kept@.len(),
            forall|i: int| 0 <= i < rest@.len() ==> (#[trigger] rest@[i])@ == told[i],
            forall|i: int|
                0 <= i < kept@.len() ==> (#[trigger] kept@[i])@ == told[told.len() - 1 - i],
        decreases rest@.len(),
    {
        match rest.pop() {
            Some(report) => kept.push(report),
            None => {},
        }
    }
    assert(deeds(actions@) =~= before + reporting(told).take(0));
    while kept.len() > 0
        invariant
            kept@.len() <= told.len(),
            forall|i: int|
                0 <= i < kept@.len() ==> (#[trigger] kept@[i])@ == told[told.len() - 1 - i],
            deeds(actions@) == before + reporting(told).take(told.len() - kept@.len()),
        decreases kept@.len(),
    {
        let ghost at = told.len() - kept@.len();
        match kept.pop() {
            Some(report) => {
                act(actions, Action::Report(report));
                assert(reporting(told).take(at + 1) =~= reporting(told).take(at).push(
                    reporting(told)[at],
                ));
            },
            None => {},
        }
    }
    assert(reporting(told).take(told.len() as int) =~= reporting(told));
}

/// Addresses, as they are printed.
pub open spec fn printed(addresses: Seq<Address>) -> Seq<Seq<char>> {
    Seq::new(addresses.len(), |i: int| addresses[i]@)
}

/// Whether an address is among these.
fn has_address(addresses: &[Address], addr: &Address) -> (yes: bool)
    ensures
        yes == printed(addresses@).contains(addr@),
{
    let mut at: usize = 0;
    while at < addresses.len()
        invariant
            at <= addresses@.len(),
            forall|i: int| 0 <= i < at ==> printed(addresses@)[i] != addr@,
        decreases addresses@.len() - at,
    {
        if addresses[at].same(addr) {
            assert(printed(addresses@)[at as int] == addr@);
            return true;
        }
        at += 1;
    }
    false
}

fn drop_address(addresses: &mut Vec<Address>, addr: &Address)
    ensures
        printed(final(addresses)@) == without(printed(old(addresses)@), addr@),
{
    let ghost all = printed(addresses@);
    let mut kept: Vec<Address> = Vec::new();
    let mut at: usize = 0;
    assert(all.take(0) =~= Seq::<Seq<char>>::empty());
    assert(printed(kept@) =~= Seq::<Seq<char>>::empty());
    while at < addresses.len()
        invariant
            at <= addresses@.len(),
            all == printed(addresses@),
            printed(kept@) == without(all.take(at as int), addr@),
        decreases addresses@.len() - at,
    {
        proof {
            assert(all.take(at + 1).drop_last() =~= all.take(at as int));
            assert(all.take(at + 1).last() == addresses@[at as int]@);
        }
        if !addresses[at].same(addr) {
            let ghost before = printed(kept@);
            kept.push(addresses[at].clone());
            assert(printed(kept@) =~= before.push(addresses@[at as int]@));
        }
        at += 1;
    }
    assert(all.take(at as int) =~= all);
    *addresses = kept;
}

fn since(now: u128, then: u128) -> (span: u128)
    ensures
        span == elapsed(now, then),
{
    if now >= then {
        now - then
    } else {
        0
    }
}

/// Addresses of peers, as they are printed.
pub open spec fn places(known: Map<Seq<u8>, Address>) -> Map<Seq<u8>, Seq<char>> {
    Map::new(|p: Seq<u8>| known.dom().contains(p), |p: Seq<u8>| known[p]@)
}

/// Lists of addresses of peers, as they are printed.
pub open spec fn routes(known: Map<Seq<u8>, Vec<Address>>) -> Map<Seq<u8>, Seq<Seq<char>>> {
    Map::new(|p: Seq<u8>| known.dom().contains(p), |p: Seq<u8>| printed(known[p]@))
}

/// Members, as values.
pub open spec fn memberships(known: Map<Seq<u8>, Member>) -> Map<Seq<u8>, Membership> {
    Map::new(|p: Seq<u8>| known.dom().contains(p), |p: Seq<u8>| known[p]@)
}

/// An address, if there is one.
pub open spec fn address_in(addr: Option<Address>) -> Option<Seq<char>> {
    match addr {
        Some(addr) => Some(addr@),
        None => None,
    }
}

/// A job and who is running it, if there is one.
pub open spec fn duty_in(work: Option<Work>) -> Option<Duty> {
    match work {
        Some(work) => Some(work@),
        None => None,
    }
}

/// A node of a mesh.
pub struct Node {
    label: String,
    port: u16,
    mdns: bool,
    detect: u128,
    me: PeerId,
    pending: Vec<Address>,
    reached_by: PeerMap<Vec<Address>>,
    dial_attempts: u32,
    seen_at: PeerMap<Address>,
    my_address: Option<Address>,
    mapping: Option<Mapping>,
    work: Option<Work>,
    members: PeerMap<Member>,
    counter: u64,
}

impl View for Node {
    type V = NodeView;

    closed spec fn view(&self) -> NodeView {
        NodeView {
            label: self.label@,
            port: self.port,
            mdns: self.mdns,
            detect: self.detect,
            me: self.me@,
            pending: printed(self.pending@),
            reached_by: routes(self.reached_by@),
            dial_attempts: self.dial_attempts,
            seen_at: places(self.seen_at@),
            my_address: address_in(self.my_address),
            mapping: self.mapping,
            work: duty_in(self.work),
            members: memberships(self.members@),
            counter: self.counter,
        }
    }
}

/// Continues a job whose owner has gone, if this node is the one that should.
///
/// No handshake and no agreement: every survivor holds the same membership and
/// applies the same rule, so they arrive at the same answer independently. The
/// job resumes from the last checkpoint received, which is why checkpoints are
/// broadcast to everyone rather than to a chosen successor: the successor is
/// not known until the moment it is needed.
fn take_over_if_ours(
    me: &PeerId,
    work: &mut Work,
    members: &PeerMap<Member>,
    now: u128,
    actions: &mut Vec<Action>,
)
    requires
        members.wf(),
        old(work).wf(),
    ensures
        final(work).wf(),
        forall|n: NodeView|
            n.me == me@ && n.work == Some(old(work)@) && n.members == memberships(members@) ==> {
                let (next, more) = #[trigger] n.taking_over(now);
                &&& next == (NodeView { work: Some(final(work)@), ..n })
                &&& deeds(final(actions)@) == deeds(old(actions)@) + more
            },
{
    assert(memberships(members@).dom() =~= members@.dom());
    if !Work::should_take_over(me, members) {
        assert(deeds(actions@) =~= deeds(actions@) + Seq::<Deed>::empty());
        return;
    }
    let gap: u128 = match work.owner_lost_at {
        Some(at) => since(now, at),
        None => 0,
    };
    work.owner = Some(*me);
    work.owner_lost_at = None;
    let report = took_over(work.tick, gap, work.state.len(), members.len() as u128 + 1);
    let ghost before = deeds(actions@);
    act(actions, Action::Report(report));
    assert(deeds(actions@) =~= before + seq![Deed::Report(report@)]);
}

impl Node {
    /// The node holds each peer once, its job may be run, and it does not take
    /// itself for a peer.
    pub closed spec fn wf(&self) -> bool {
        &&& self.reached_by.wf()
        &&& self.seen_at.wf()
        &&& self.members.wf()
        &&& self.work matches Some(work) ==> work.wf()
        &&& self@.sound()
    }

    /// A node that knows nobody yet. A node told to run its job listens first:
    /// for three times as long as a peer may be silent.
    pub fn new(
        label: String,
        port: u16,
        mdns: bool,
        detect_ms: u64,
        me: PeerId,
        dial: Vec<Address>,
        job: Option<Job>,
        own: bool,
        now: u128,
    ) -> (node: Node)
        requires
            job matches Some(job) ==> job.wf(),
            now + 3 * detect_ms * 1_000_000 <= u128::MAX,
        ensures
            node.wf(),
            node@ == NodeView::newborn(
                label@,
                port,
                mdns,
                (detect_ms * 1_000_000) as u128,
                me@,
                printed(dial@),
                job,
                own,
                now,
            ),
    {
        let detect: u128 = detect_ms as u128 * 1_000_000;
        let work = match job {
            Some(job) => Some(
                Work {
                    job,
                    ledger: Ledger::new(),
                    owner: None,
                    state: Vec::new(),
                    tick: 0,
                    owner_lost_at: None,
                    claim_after: if own {
                        Some(now + detect * 3)
                    } else {
                        None
                    },
                },
            ),
            None => None,
        };
        let node = Node {
            label,
            port,
            mdns,
            detect,
            me,
            pending: dial,
            reached_by: PeerMap::new(),
            dial_attempts: 0,
            seen_at: PeerMap::new(),
            my_address: None,
            mapping: None,
            work,
            members: PeerMap::new(),
            counter: 0,
        };
        assert(node@.members =~= Map::empty());
        assert(node@.reached_by =~= Map::empty());
        assert(node@.seen_at =~= Map::empty());
        node
    }

    /// Whether anybody is still to be reached.
    pub fn has_pending(&self) -> (yes: bool)
        ensures
            yes == (self@.pending.len() > 0),
    {
        self.pending.len() > 0
    }

    /// Whether another attempt at dialling can be counted.
    pub fn can_dial(&self) -> (yes: bool)
        ensures
            yes == (self@.dial_attempts < u32::MAX),
    {
        self.dial_attempts < u32::MAX
    }

    /// Whether another heartbeat can be counted.
    pub fn can_beat(&self) -> (yes: bool)
        ensures
            yes == (self@.counter < u64::MAX),
    {
        self.counter < u64::MAX
    }

    /// Whether another tick of the job can be counted.
    pub fn can_tick(&self) -> (yes: bool)
        ensures
            yes == (self@.work matches Some(duty) ==> duty.tick < u64::MAX),
    {
        match &self.work {
            Some(work) => work.tick < u64::MAX,
            None => true,
        }
    }

    /// Whether this node runs the job at this moment, or is about to claim it.
    pub fn is_due(&self, now: u128) -> (yes: bool)
        ensures
            yes == (self@.runs() || self@.may_claim(now)),
    {
        match &self.work {
            Some(work) => is_peer(&work.owner, &self.me) || (work.owner.is_none()
                && match work.claim_after {
                Some(at) => now >= at,
                None => false,
            }),
            None => false,
        }
    }

    /// It is time to dial again.
    ///
    /// Retrying is not politeness, it is the mechanism. Two nodes behind address
    /// translation cannot be dialled; the only thing that opens a path is both
    /// of them sending outward at once, and each attempt is a packet outward.
    /// Whoever starts second would fail permanently if the first had given up.
    pub fn on_dial_retry(&mut self) -> (actions: Vec<Action>)
        requires
            old(self).wf(),
            old(self)@.dial_attempts < u32::MAX,
        ensures
            final(self).wf(),
            (final(self)@, deeds(actions@)) == old(self)@.dialled(),
    {
        let mut actions = nothing();
        self.dial_attempts = self.dial_attempts + 1;
        let mut at: usize = 0;
        let ghost all = printed(self.pending@);
        assert(deeds(actions@) =~= dials(all).take(0));
        while at < self.pending.len()
            invariant
                at <= self.pending@.len(),
                all == printed(self.pending@),
                deeds(actions@) == dials(all).take(at as int),
            decreases self.pending@.len() - at,
        {
            act(&mut actions, Action::Dial(self.pending[at].clone()));
            assert(dials(all).take(at + 1) =~= dials(all).take(at as int).push(
                dials(all)[at as int],
            ));
            at += 1;
        }
        assert(dials(all).take(at as int) =~= dials(all));
        if self.dial_attempts == 1 || self.dial_attempts % 15 == 0 {
            act(&mut actions, Action::Report(dialling(self.pending.len(), self.dial_attempts)));
        }
        assert(deeds(actions@) =~= old(self)@.dialled().1);
        actions
    }

    /// The router was asked to forward this node's port, and answered or did
    /// not.
    ///
    /// Asked for repeatedly, not once. A mapping expires, and a node that asks
    /// at startup and forgets stops being reachable while appearing perfectly
    /// healthy.
    pub fn on_mapping(&mut self, answer: Result<Mapping, String>) -> (actions: Vec<Action>)
        requires
            old(self).wf(),
        ensures
            final(self).wf(),
            (final(self)@, deeds(actions@)) == old(self)@.mapped(
                match answer {
                    Ok(now) => Ok(now),
                    Err(error) => Err(error@),
                },
            ),
    {
        let mut actions = nothing();
        match answer {
            Ok(now) => {
                if self.mapping != Some(now) {
                    act(
                        &mut actions,
                        Action::Report(
                            port_mapped(
                                now.external_ip,
                                now.external_port,
                                now.lifetime,
                                now.external_port == self.port,
                            ),
                        ),
                    );
                    self.mapping = Some(now);
                }
            },
            Err(error) => {
                act(
                    &mut actions,
                    Action::Report(port_map_failed(&error, self.mapping.is_some())),
                );
                self.mapping = None;
            },
        }
        actions
    }

    /// It is time to repeat what this node can see, for anyone who has since
    /// arrived. New members hear the whole roster this way and dial into it,
    /// rather than waiting to be found.
    pub fn on_announce(&self) -> (actions: Vec<Action>)
        requires
            self.wf(),
        ensures
            exists|peers: Seq<Seq<u8>>|
                {
                    &&& peers.no_duplicates()
                    &&& peers.to_set() == self@.seen_at.dom()
                    &&& deeds(actions@) == #[trigger] self@.announcing(peers)
                },
    {
        let mut actions = nothing();
        let ghost peers = self.seen_at.order();
        let all = self.seen_at.len();
        let mut at: usize = 0;
        assert(deeds(actions@) =~= self@.announcing(peers).take(0));
        while at < all
            invariant
                self.wf(),
                at <= all,
                all == peers.len(),
                peers == self.seen_at.order(),
                deeds(actions@) == self@.announcing(peers).take(at as int),
            decreases all - at,
        {
            let peer = self.seen_at.peer_at(at);
            let addr = self.seen_at.value_at(at);
            act(&mut actions, Action::Publish(encode_observed(&self.label, &peer, addr)));
            proof {
                assert(self@.seen_at[peers[at as int]] == addr@);
                assert(self@.announcing(peers).take(at + 1) =~= self@.announcing(peers).take(
                    at as int,
                ).push(self@.announcing(peers)[at as int]));
            }
            at += 1;
        }
        proof {
            self.seen_at.lemma_order();
            assert(self@.announcing(peers).take(at as int) =~= self@.announcing(peers));
            assert(self@.seen_at.dom() =~= self.seen_at@.dom());
        }
        actions
    }

    /// It is time for another heartbeat.
    pub fn on_heartbeat(&mut self) -> (actions: Vec<Action>)
        requires
            old(self).wf(),
            old(self)@.counter < u64::MAX,
        ensures
            final(self).wf(),
            (final(self)@, deeds(actions@)) == old(self)@.beating(),
    {
        let mut actions = nothing();
        self.counter = self.counter + 1;
        act(&mut actions, Action::Publish(encode_heartbeat(&self.label, self.counter)));
        actions
    }
}

impl Node {
    /// Claims the job, if it is time. Any checkpoint received clears the claim,
    /// so it happens exactly when nobody answered for the work.
    fn claim(&mut self, now: u128) -> (actions: Vec<Action>)
        requires
            old(self).wf(),
        ensures
            final(self).wf(),
            (final(self)@, deeds(actions@)) == old(self)@.claiming(now),
    {
        let mut actions = nothing();
        let mut held = self.work.take();
        if let Some(work) = &mut held {
            if let Some(at) = work.claim_after {
                if work.owner.is_none() && now >= at {
                    work.claim_after = None;
                    work.owner = Some(self.me);
                    act(&mut actions, Action::Report(claimed(work.tick)));
                }
            }
        }
        self.work = held;
        actions
    }

    /// A tick of the job came to this.
    pub fn on_tick_result(&mut self, res: Result<Outcome, JobError>) -> (actions: Vec<Action>)
        requires
            old(self).wf(),
            old(self)@.work is Some,
            res is Ok ==> old(self)@.work->0.tick < u64::MAX,
        ensures
            final(self).wf(),
            (final(self)@, deeds(actions@)) == old(self)@.ticked(res),
    {
        let mut actions = nothing();
        let mut held = self.work.take();
        if let Some(work) = &mut held {
            match res {
                Ok(outcome) => {
                    work.state = outcome.state;
                    work.tick = work.tick + 1;
                    let effects = read_lossy(&outcome.effects);
                    let found = lines_of(&effects);
                    let ghost told = effect_notes(work.tick, texts(found@));
                    let mut at: usize = 0;
                    assert(deeds(actions@) =~= reporting(told).take(0));
                    while at < found.len()
                        invariant
                            at <= found@.len(),
                            told == effect_notes(work.tick, texts(found@)),
                            deeds(actions@) == reporting(told).take(at as int),
                        decreases found@.len() - at,
                    {
                        act(&mut actions, Action::Report(effect(work.tick, &found[at])));
                        proof {
                            assert(texts(found@)[at as int] == found@[at as int]@);
                            assert(reporting(told).take(at + 1) =~= reporting(told).take(
                                at as int,
                            ).push(reporting(told)[at as int]));
                        }
                        at += 1;
                    }
                    assert(reporting(told).take(at as int) =~= reporting(told));
                    let reports = record_production(work, &effects);
                    act_reports(&mut actions, reports);
                    act(
                        &mut actions,
                        Action::Publish(encode_checkpoint(&self.label, work.tick, &work.state)),
                    );
                },
                Err(error) => {
                    act(&mut actions, Action::Report(job_failed(&error.message(), work.tick)));
                    work.owner = None;
                },
            }
        }
        self.work = held;
        assert(deeds(actions@) =~= old(self)@.ticked(res).1);
        actions
    }

    /// It is time for another tick of the job, if this node runs it.
    ///
    /// What the tick comes to is the job's to decide. Whatever it is, the job
    /// was handed its last state and what the world hands it at this tick, and
    /// what follows is what `on_tick_result` makes of it.
    pub fn on_job_tick(&mut self, now: u128) -> (actions: Vec<Action>)
        requires
            old(self).wf(),
            old(self)@.runs() || old(self)@.may_claim(now) ==> old(self)@.work->0.tick < u64::MAX,
        ensures
            final(self).wf(),
            ({
                let (ready, first) = old(self)@.claiming(now);
                if ready.runs() {
                    exists|res: Result<Outcome, JobError>| #[trigger]
                        may_come_to(ready.work->0, res) && {
                            let (next, more) = ready.ticked(res);
                            final(self)@ == next && deeds(actions@) == first + more
                        }
                } else {
                    final(self)@ == ready && deeds(actions@) == first
                }
            }),
    {
        let mut actions = self.claim(now);
        let ghost ready = self@;
        let ghost first = deeds(actions@);
        let res = match &self.work {
            Some(work) => {
                if !is_peer(&work.owner, &self.me) {
                    return actions;
                }
                let inputs = world_inputs(work.tick);
                work.job.tick(&work.state, &inputs)
            },
            None => return actions,
        };
        assert(may_come_to(ready.work->0, res));
        let mut more = self.on_tick_result(res);
        let ghost second = deeds(more@);
        actions.append(&mut more);
        assert(deeds(actions@) =~= first + second);
        actions
    }

    /// It is time to see who has been silent for too long.
    ///
    /// Whoever is found here never said goodbye: the machine was unplugged, lost
    /// power, lost its network, or hung.
    pub fn on_sweep(&mut self, now: u128) -> (actions: Vec<Action>)
        requires
            old(self).wf(),
        ensures
            final(self).wf(),
            exists|gone: Seq<Seq<u8>>|
                {
                    &&& gone.no_duplicates()
                    &&& gone.to_set() == old(self)@.silent(now)
                    &&& (final(self)@, deeds(actions@)) == #[trigger] old(self)@.swept(now, gone)
                },
    {
        let ghost before = self@;
        let mut actions = nothing();
        let mut gone: Vec<PeerId> = Vec::new();
        let all = self.members.len();
        let ghost order = self.members.order();
        let mut at: usize = 0;
        proof {
            self.members.lemma_order();
        }
        assert(ids(gone@) =~= Seq::<Seq<u8>>::empty());
        while at < all
            invariant
                self.wf(),
                self@ == before,
                at <= all,
                all == order.len(),
                order == self.members.order(),
                order.no_duplicates(),
                ids(gone@).no_duplicates(),
                forall|p: Seq<u8>|
                    #![trigger ids(gone@).contains(p)]
                    ids(gone@).contains(p) == (order.take(at as int).contains(p) && elapsed(
                        now,
                        self.members@[p].last_heard,
                    ) > self.detect),
            decreases all - at,
        {
            let peer = self.members.peer_at(at);
            let member = self.members.value_at(at);
            let ghost so_far = gone@;
            proof {
                assert(order.take(at + 1) =~= order.take(at as int).push(peer@));
                if order.take(at as int).contains(peer@) {
                    let i = order.take(at as int).index_of(peer@);
                    assert(order[i] == peer@ && order[at as int] == peer@);
                }
            }
            assert(!ids(so_far).contains(peer@));
            if since(now, member.last_heard) > self.detect {
                gone.push(peer);
                assert(ids(gone@) =~= ids(so_far).push(peer@));
            }
            proof {
                assert forall|p: Seq<u8>|
                    #![trigger ids(gone@).contains(p)]
                    ids(gone@).contains(p) == (order.take(at + 1).contains(p) && elapsed(
                        now,
                        self.members@[p].last_heard,
                    ) > self.detect) by {
                    lemma_push_contains(ids(so_far), peer@, p);
                    lemma_push_contains(order.take(at as int), peer@, p);
                    assert(ids(so_far).contains(p) == (order.take(at as int).contains(p)
                        && elapsed(now, self.members@[p].last_heard) > self.detect));
                }
            }
            at += 1;
        }
        proof {
            assert(order.take(at as int) =~= order);
            assert forall|p: Seq<u8>| ids(gone@).to_set().contains(p) == before.silent(
                now,
            ).contains(p) by {
                assert(order.to_set().contains(p) == self.members@.dom().contains(p));
            }
            assert(ids(gone@).to_set() =~= before.silent(now));
        }
        at = 0;
        let ghost lost = ids(gone@);
        assert(lost.take(0).to_set() =~= Set::<Seq<u8>>::empty());
        assert(before.bereft(now, lost.take(0).to_set()).members =~= before.members);
        assert(deeds(actions@) =~= before.mourning(now, lost).take(0));
        while at < gone.len()
            invariant
                self.wf(),
                at <= gone@.len(),
                lost == ids(gone@),
                lost.no_duplicates(),
                forall|p: Seq<u8>| #[trigger] lost.contains(p) ==> before.members.dom().contains(p),
                self@ == before.bereft(now, lost.take(at as int).to_set()),
                deeds(actions@) == before.mourning(now, lost).take(at as int),
            decreases gone@.len() - at,
        {
            let peer = gone[at];
            let ghost earlier = lost.take(at as int);
            let ghost then = self@;
            proof {
                assert(lost[at as int] == peer@);
                assert(lost.contains(peer@));
                if earlier.contains(peer@) {
                    let i = earlier.index_of(peer@);
                    assert(lost[i] == peer@);
                }
                assert(then.members.dom().contains(peer@));
                assert(then.members[peer@] == before.members[peer@]);
                assert(lost.take(at + 1) =~= earlier.push(peer@));
                assert forall|p: Seq<u8>| lost.take(at + 1).to_set().contains(p)
                    == earlier.to_set().insert(peer@).contains(p) by {
                    lemma_push_contains(earlier, peer@, p);
                }
                assert(lost.take(at + 1).to_set() =~= earlier.to_set().insert(peer@));
            }
            self.lose(&peer, now);
            if let Some(member) = self.members.remove(&peer) {
                act(
                    &mut actions,
                    Action::Report(
                        vanished(
                            &member.label,
                            &peer,
                            since(now, member.last_heard),
                            member.disconnected,
                            since(now, member.joined),
                        ),
                    ),
                );
            }
            proof {
                let told = before.mourning(now, lost);
                assert(told.take(at + 1) =~= told.take(at as int).push(told[at as int]));
                assert(self@.members =~= then.members.remove(peer@));
                assert(before.members.remove_keys(earlier.to_set()).remove(peer@)
                    =~= before.members.remove_keys(earlier.to_set().insert(peer@)));
                assert(self@ =~= before.bereft(now, lost.take(at + 1).to_set()));
            }
            at += 1;
        }
        assert(lost.take(at as int) =~= lost);
        let ghost told = before.mourning(now, lost);
        assert(told.take(at as int) =~= told);
        let ghost rest = self@;
        let mut held = self.work.take();
        if let Some(work) = &mut held {
            if work.owner.is_none() && work.owner_lost_at.is_some() {
                proof {
                    let _ = rest.taking_over(now);
                }
                take_over_if_ours(&self.me, work, &self.members, now, &mut actions);
            }
        }
        self.work = held;
        assert((self@, deeds(actions@)) == before.swept(now, lost));
        actions
    }

    /// The owner of the job is lost, if this was the owner.
    fn lose(&mut self, peer: &PeerId, now: u128)
        requires
            old(self).wf(),
        ensures
            final(self).wf(),
            final(self).members == old(self).members,
            final(self)@ == (NodeView {
                work: match old(self)@.work {
                    Some(duty) => Some(
                        if duty.owner == Some(peer@) {
                            Duty { owner: None, owner_lost_at: Some(now), ..duty }
                        } else {
                            duty
                        },
                    ),
                    None => None,
                },
                ..old(self)@
            }),
    {
        let mut held = self.work.take();
        if let Some(work) = &mut held {
            if is_peer(&work.owner, peer) {
                work.owner = None;
                work.owner_lost_at = Some(now);
            }
        }
        self.work = held;
    }
}

/// A note, if there is one.
pub open spec fn note_in(report: Option<Report>) -> Option<Note> {
    match report {
        Some(report) => Some(report@),
        None => None,
    }
}

/// A peer was dialled in vain.
pub fn on_dial_failed(peer: Option<PeerId>, reason: &str) -> (report: Option<Report>)
    ensures
        note_in(report) == if worth_telling(reason@) {
            Some(
                dial_failed_note(
                    reason@,
                    match peer {
                        Some(peer) => peer_text(peer@),
                        None => Seq::empty(),
                    },
                ),
            )
        } else {
            None
        },
{
    if holds_text(reason, "Timeout") || holds_text(reason, "timed out") {
        return None;
    }
    let who = match peer {
        Some(peer) => peer.text(),
        None => String::new(),
    };
    Some(dial_failed(reason, &who))
}

/// Peers and addresses, as values.
pub open spec fn sightings(found: Seq<(PeerId, Address)>) -> Seq<(Seq<u8>, Seq<char>)> {
    Seq::new(found.len(), |i: int| (found[i].0@, found[i].1@))
}

impl Node {
    /// A connection to a peer was made: to `reached`, and at the address
    /// `dialled` if this node did the dialling.
    ///
    /// The address that is no longer pending is the one this node asked for, not
    /// the one the connection ended up on: a peer dialled at one address
    /// commonly answers from another.
    pub fn on_connected(&mut self, peer: PeerId, dialled: Option<Address>, reached: Address) -> (actions:
        Vec<Action>)
        requires
            old(self).wf(),
        ensures
            final(self).wf(),
            (final(self)@, deeds(actions@)) == old(self)@.met(
                peer@,
                address_in(dialled),
                reached@,
            ),
    {
        let mut actions = nothing();
        let before = self.pending.len();
        if let Some(addr) = dialled {
            drop_address(&mut self.pending, &addr);
            let mut known: Vec<Address> = match self.reached_by.get(&peer) {
                Some(known) => copy_addresses(known),
                None => Vec::new(),
            };
            assert(printed(known@) =~= old(self)@.known_routes(peer@));
            if !has_address(&known, &addr) {
                let ghost shorter = printed(known@);
                known.push(addr);
                assert(printed(known@) =~= shorter.push(addr@));
            }
            self.reached_by.insert(peer, known);
            assert(routes(self.reached_by@) =~= old(self)@.reached_by.insert(
                peer@,
                printed(known@),
            ));
        }
        act(
            &mut actions,
            Action::Report(connected(&peer, &reached, self.dial_attempts, self.pending.len())),
        );
        if before > 0 && self.pending.len() == 0 {
            act(&mut actions, Action::Report(all_reached()));
        }
        let news = encode_observed(&self.label, &peer, &reached);
        self.seen_at.insert(peer, reached);
        assert(places(self.seen_at@) =~= old(self)@.seen_at.insert(peer@, reached@));
        act(&mut actions, Action::Publish(news));
        assert(deeds(actions@) =~= old(self)@.met(peer@, address_in(dialled), reached@).1);
        actions
    }

    /// Peers were found on the local network.
    pub fn on_discovered(&self, found: &[(PeerId, Address)]) -> (actions: Vec<Action>)
        ensures
            deeds(actions@) == if self@.mdns {
                self@.meeting(sightings(found@))
            } else {
                Seq::empty()
            },
    {
        let mut actions = nothing();
        if !self.mdns {
            return actions;
        }
        let ghost all = sightings(found@);
        let mut at: usize = 0;
        assert(all.take(0) =~= Seq::<(Seq<u8>, Seq<char>)>::empty());
        while at < found.len()
            invariant
                at <= found@.len(),
                all == sightings(found@),
                deeds(actions@) == self@.meeting(all.take(at as int)),
            decreases found@.len() - at,
        {
            proof {
                assert(all.take(at + 1).drop_last() =~= all.take(at as int));
                assert(all.take(at + 1).last() == (found@[at as int].0@, found@[at as int].1@));
            }
            if !found[at].0.same(&self.me) {
                act(&mut actions, Action::Introduce(found[at].0));
                act(&mut actions, Action::Dial(found[at].1.clone()));
            }
            at += 1;
        }
        assert(all.take(at as int) =~= all);
        actions
    }

    /// A connection to a peer closed, and so many are left.
    ///
    /// A connection ending is the ordinary case: a laptop sleeps, a hotspot
    /// cycles, a router reboots. A mesh that treats it as final is a mesh that
    /// quietly shrinks by one every time anything happens.
    pub fn on_closed(&mut self, peer: &PeerId, remaining: u32) -> (actions: Vec<Action>)
        requires
            old(self).wf(),
        ensures
            final(self).wf(),
            (final(self)@, deeds(actions@)) == old(self)@.parted(peer@, remaining),
    {
        let mut actions = nothing();
        if remaining > 0 {
            return actions;
        }
        let changed = match self.members.get(peer) {
            Some(member) => Some(
                Member {
                    label: member.label.clone(),
                    joined: member.joined,
                    last_heard: member.last_heard,
                    disconnected: true,
                },
            ),
            None => None,
        };
        if let Some(member) = changed {
            self.members.insert(*peer, member);
            assert(memberships(self.members@) =~= old(self)@.members.insert(peer@, member@));
        }
        let _ = self.seen_at.remove(peer);
        assert(places(self.seen_at@) =~= old(self)@.seen_at.remove(peer@));
        let known: Vec<Address> = match self.reached_by.get(peer) {
            Some(known) => copy_addresses(known),
            None => Vec::new(),
        };
        let ghost all = printed(known@);
        assert(all =~= old(self)@.known_routes(peer@));
        let ghost first = printed(self.pending@);
        let mut resumed: usize = 0;
        let mut at: usize = 0;
        assert(all.take(0) =~= Seq::<Seq<char>>::empty());
        let ghost quiet = NodeView { pending: first, ..self@ };
        while at < known.len()
            invariant
                self.wf(),
                self@ == (NodeView { pending: printed(self.pending@), ..quiet }),
                at <= known@.len(),
                resumed <= at,
                all == printed(known@),
                printed(self.pending@) == resuming(first, all.take(at as int)),
                resumed == self.pending@.len() - first.len(),
            decreases known@.len() - at,
        {
            proof {
                assert(all.take(at + 1).drop_last() =~= all.take(at as int));
                assert(all.take(at + 1).last() == known@[at as int]@);
            }
            if !has_address(&self.pending, &known[at]) {
                let ghost shorter = printed(self.pending@);
                self.pending.push(known[at].clone());
                assert(printed(self.pending@) =~= shorter.push(known@[at as int]@));
                resumed = resumed + 1;
            }
            at += 1;
        }
        assert(all.take(at as int) =~= all);
        if resumed > 0 {
            self.dial_attempts = 0;
            act(&mut actions, Action::Report(redialling(peer, resumed)));
        }
        assert(self@ =~= old(self)@.parted(peer@, remaining).0);
        actions
    }

    /// The goodbye that this node says.
    pub fn farewell(&self) -> (bytes: Vec<u8>)
        ensures
            bytes@ == departing_bytes(self@.label),
    {
        encode_departing(&self.label)
    }
}

/// Whether a peer is among these.
fn has_peer(peers: &[PeerId], peer: &PeerId) -> (yes: bool)
    ensures
        yes == ids(peers@).to_set().contains(peer@),
{
    let mut at: usize = 0;
    while at < peers.len()
        invariant
            at <= peers@.len(),
            forall|i: int| 0 <= i < at ==> ids(peers@)[i] != peer@,
        decreases peers@.len() - at,
    {
        if peers[at].same(peer) {
            assert(ids(peers@)[at as int] == peer@);
            return true;
        }
        at += 1;
    }
    false
}

impl Node {
    /// Bytes came in from `source`, if anyone signed them, while this node is
    /// connected to these peers.
    pub fn on_message(
        &mut self,
        source: Option<PeerId>,
        data: &[u8],
        now: u128,
        connected: &[PeerId],
    ) -> (actions: Vec<Action>)
        requires
            old(self).wf(),
            old(self)@.counter < u64::MAX,
        ensures
            final(self).wf(),
            (final(self)@, deeds(actions@)) == old(self)@.receiving(
                peer_in(source),
                data@,
                now,
                ids(connected@).to_set(),
            ),
    {
        let source = match source {
            Some(source) => source,
            None => return nothing(),
        };
        if source.same(&self.me) {
            return nothing();
        }
        let message = match parse_message(data) {
            Some(message) => message,
            None => return nothing(),
        };
        let mut actions = self.notice(&source, &message, now);
        let ghost first = deeds(actions@);
        let mut more = self.act_on(&source, message, now, connected);
        let ghost second = deeds(more@);
        actions.append(&mut more);
        assert(deeds(actions@) =~= first + second);
        actions
    }

    /// Takes note of who said something.
    fn notice(&mut self, source: &PeerId, message: &Message, now: u128) -> (actions: Vec<Action>)
        requires
            old(self).wf(),
            old(self)@.counter < u64::MAX,
            source@ != old(self)@.me,
        ensures
            final(self).wf(),
            (final(self)@, deeds(actions@)) == old(self)@.noticing(source@, message@, now),
    {
        let mut actions = nothing();
        let known = match self.members.get(source) {
            Some(member) => Some(
                Member {
                    label: member.label.clone(),
                    joined: member.joined,
                    last_heard: now,
                    disconnected: false,
                },
            ),
            None => None,
        };
        match known {
            Some(member) => {
                self.members.insert(*source, member);
                assert(memberships(self.members@) =~= old(self)@.members.insert(
                    source@,
                    member@,
                ));
                assert(self@.sound());
            },
            None => {
                let leaving = match message {
                    Message::Departing { .. } => true,
                    _ => false,
                };
                if !leaving {
                    let member = Member {
                        label: message.label().clone(),
                        joined: now,
                        last_heard: now,
                        disconnected: false,
                    };
                    act(&mut actions, Action::Report(joined(&member.label, source)));
                    self.members.insert(*source, member);
                    assert(memberships(self.members@) =~= old(self)@.members.insert(
                        source@,
                        member@,
                    ));
                    assert(self@.sound());
                    self.counter = self.counter + 1;
                    act(
                        &mut actions,
                        Action::Publish(encode_heartbeat(&self.label, self.counter)),
                    );
                }
            },
        }
        actions
    }

    /// Does what a message means.
    fn act_on(&mut self, source: &PeerId, message: Message, now: u128, connected: &[PeerId]) -> (actions:
        Vec<Action>)
        requires
            old(self).wf(),
        ensures
            final(self).wf(),
            (final(self)@, deeds(actions@)) == old(self)@.acting_on(
                source@,
                message@,
                now,
                ids(connected@).to_set(),
            ),
    {
        match message {
            Message::Heartbeat { .. } => nothing(),
            Message::Departing { .. } => self.part(source, now),
            Message::Observed { label, peer, addr } => self.learn(&label, &peer, addr, connected),
            Message::Checkpoint { label, tick, state } => self.follow(source, &label, tick, state),
        }
    }

    /// A peer said goodbye.
    fn part(&mut self, source: &PeerId, now: u128) -> (actions: Vec<Action>)
        requires
            old(self).wf(),
        ensures
            final(self).wf(),
            (final(self)@, deeds(actions@)) == old(self)@.parting(source@, now),
    {
        let ghost before = self@;
        let mut actions = nothing();
        if let Some(member) = self.members.remove(source) {
            act(
                &mut actions,
                Action::Report(left(&member.label, source, since(now, member.joined))),
            );
        }
        let ghost told = deeds(actions@);
        assert(memberships(self.members@) =~= before.members.remove_keys(set![source@]));
        let was_owner = match &self.work {
            Some(work) => is_peer(&work.owner, source),
            None => false,
        };
        self.lose(source, now);
        let ghost rest = self@;
        assert(rest =~= before.bereft(now, set![source@]));
        if was_owner {
            let mut held = self.work.take();
            if let Some(work) = &mut held {
                proof {
                    let _ = rest.taking_over(now);
                }
                take_over_if_ours(&self.me, work, &self.members, now, &mut actions);
            }
            self.work = held;
        }
        assert(deeds(actions@) =~= before.parting(source@, now).1);
        actions
    }

    /// A peer said where another can be seen.
    fn learn(&mut self, label: &str, peer: &PeerId, addr: Address, connected: &[PeerId]) -> (actions:
        Vec<Action>)
        requires
            old(self).wf(),
        ensures
            final(self).wf(),
            (final(self)@, deeds(actions@)) == old(self)@.learning(
                label@,
                peer@,
                addr@,
                ids(connected@).to_set(),
            ),
    {
        let mut actions = nothing();
        if peer.same(&self.me) {
            let known = match &self.my_address {
                Some(known) => known.same(&addr),
                None => false,
            };
            if !known {
                act(&mut actions, Action::Report(my_address(label, &addr)));
                self.my_address = Some(addr);
            }
            return actions;
        }
        if has_peer(connected, peer) || has_address(&self.pending, &addr) {
            return actions;
        }
        act(&mut actions, Action::Report(learned_peer(label, peer, &addr)));
        act(&mut actions, Action::Dial(addr.clone()));
        self.pending.push(addr);
        assert(printed(self.pending@) =~= old(self)@.pending.push(addr@));
        actions
    }

    /// A peer published a checkpoint.
    fn follow(&mut self, source: &PeerId, label: &str, tick: u64, state: Vec<u8>) -> (actions: Vec<
        Action,
    >)
        requires
            old(self).wf(),
        ensures
            final(self).wf(),
            (final(self)@, deeds(actions@)) == old(self)@.following(
                source@,
                label@,
                tick,
                state@,
            ),
    {
        let mut actions = nothing();
        let mut held = self.work.take();
        if let Some(work) = &mut held {
            work.claim_after = None;
            let mine = is_peer(&work.owner, &self.me);
            if !mine || Work::theirs((work.tick, &self.me), (tick, source)) {
                if mine {
                    act(&mut actions, Action::Report(yielded(label, source, tick, work.tick)));
                } else if !is_peer(&work.owner, source) {
                    act(&mut actions, Action::Report(job_owner(label, source)));
                }
                work.owner = Some(*source);
                work.owner_lost_at = None;
                if tick >= work.tick {
                    work.tick = tick;
                    work.state = state;
                }
            }
        }
        self.work = held;
        actions
    }
}

fn copy_addresses(addresses: &Vec<Address>) -> (copies: Vec<Address>)
    ensures
        printed(copies@) == printed(addresses@),
{
    let mut copies: Vec<Address> = Vec::new();
    let mut at: usize = 0;
    while at < addresses.len()
        invariant
            at <= addresses@.len(),
            copies@.len() == at,
            forall|i: int| 0 <= i < at ==> (#[trigger] copies@[i])@ == addresses@[i]@,
        decreases addresses@.len() - at,
    {
        copies.push(addresses[at].clone());
        at += 1;
    }
    assert(printed(copies@) =~= printed(addresses@));
    copies
}

/// Peers, as they are written.
pub open spec fn ids(peers: Seq<PeerId>) -> Seq<Seq<u8>> {
    Seq::new(peers.len(), |i: int| peers[i]@)
}

proof fn lemma_push_contains(s: Seq<Seq<u8>>, last: Seq<u8>, p: Seq<u8>)
    ensures
        s.push(last).contains(p) <==> s.contains(p) || p == last,
{
    let longer = s.push(last);
    if longer.contains(p) {
        let i = longer.index_of(p);
        if i < s.len() {
            assert(s[i] == p);
        }
    }
    if s.contains(p) {
        let i = s.index_of(p);
        assert(longer[i] == p);
    }
    assert(longer[s.len() as int] == last);
}

} // verus!
