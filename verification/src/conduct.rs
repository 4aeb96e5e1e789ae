//! How a node conducts itself, whatever it knows: for each thing that happens to
//! it, what has to be true afterwards and what it has to do.
//!
//! `mesh` says how a node's knowledge is worked out. Here is what that knowledge
//! is for, said of what went in and what came out.
use crate::job::{JobError, Outcome};
use crate::mesh::{Deed, NodeView};
use crate::message::{
    checkpoint_bytes, heartbeat_bytes, observed_bytes, said_in, Said,
};
use crate::notice::{
    all_reached_note, claimed_note, connected_note, dialling_note, effect_note, job_failed_note,
    job_owner_note, joined_note, learned_peer_note, left_note, my_address_note,
    port_map_failed_note, port_mapped_note, redialling_note, took_over_note, vanished_note,
    yielded_note,
};
use crate::order::{bytes_before, lemma_bytes_one_way};
use crate::portmap::Mapping;
use crate::text::lines;
use crate::utf8::lossy_text;
use crate::work::Duty;
use vstd::prelude::*;

verus! {

/// What a node is told once and keeps for good.
pub open spec fn stays_itself(n: NodeView, next: NodeView) -> bool {
    &&& next.label == n.label
    &&& next.port == n.port
    &&& next.mdns == n.mdns
    &&& next.detect == n.detect
    &&& next.me == n.me
}

/// What a node knows of the ways to its peers.
pub open spec fn keeps_routes(n: NodeView, next: NodeView) -> bool {
    &&& next.pending == n.pending
    &&& next.reached_by == n.reached_by
    &&& next.dial_attempts == n.dial_attempts
    &&& next.seen_at == n.seen_at
    &&& next.my_address == n.my_address
    &&& next.mapping == n.mapping
}

/// How many deeds come of a newcomer, before anything else: it is reported, and
/// answered.
pub open spec fn welcome(n: NodeView, source: Seq<u8>) -> int {
    if n.members.dom().contains(source) {
        0
    } else {
        2
    }
}

/// What nobody signed, what the node sent itself and what it does not understand
/// changes nothing, and nothing is done about it.
pub proof fn what_means_nothing_changes_nothing(
    n: NodeView,
    source: Option<Seq<u8>>,
    data: Seq<u8>,
    now: u128,
    connected: Set<Seq<u8>>,
)
    requires
        source is None || source == Some(n.me) || said_in(data) is None,
    ensures
        n.receiving(source, data, now, connected).0 == n,
        n.receiving(source, data, now, connected).1.len() == 0,
{
}

/// Whoever says anything but goodbye is a member, last heard now and not taken
/// for disconnected. One that was a member already joined when it did, under the
/// name that it had; a newcomer joins now, under the name that it gives, is
/// reported, and is answered at once with the next heartbeat. Nobody else's
/// membership changes.
pub proof fn whoever_speaks_is_a_member(
    n: NodeView,
    source: Seq<u8>,
    data: Seq<u8>,
    now: u128,
    connected: Set<Seq<u8>>,
)
    requires
        source != n.me,
        n.counter < u64::MAX,
        said_in(data) is Some,
        !(said_in(data)->0 is Departing),
    ensures
        ({
            let (next, deeds) = n.receiving(Some(source), data, now, connected);
            let label = said_in(data)->0.label();
            &&& stays_itself(n, next)
            &&& next.members.dom() == n.members.dom().insert(source)
            &&& next.members[source].last_heard == now
            &&& !next.members[source].disconnected
            &&& n.members.dom().contains(source) ==> {
                &&& next.members[source].joined == n.members[source].joined
                &&& next.members[source].label == n.members[source].label
                &&& next.counter == n.counter
            }
            &&& !n.members.dom().contains(source) ==> {
                &&& next.members[source].joined == now
                &&& next.members[source].label == label
                &&& next.counter == n.counter + 1
                &&& deeds.len() >= 2
                &&& deeds[0] == Deed::Report(joined_note(label, source))
                &&& deeds[1] == Deed::Publish(heartbeat_bytes(n.label, next.counter))
            }
            &&& forall|p: Seq<u8>|
                p != source && #[trigger] n.members.dom().contains(p) ==> next.members[p]
                    == n.members[p]
        }),
{
    let next = n.receiving(Some(source), data, now, connected).0;
    assert(next.members.dom() =~= n.members.dom().insert(source));
}

/// A heartbeat proves its sender alive and does nothing else.
pub proof fn a_heartbeat_only_proves_life(
    n: NodeView,
    source: Seq<u8>,
    data: Seq<u8>,
    now: u128,
    connected: Set<Seq<u8>>,
)
    requires
        source != n.me,
        said_in(data) is Some,
        said_in(data)->0 is Heartbeat,
    ensures
        ({
            let (next, deeds) = n.receiving(Some(source), data, now, connected);
            &&& keeps_routes(n, next)
            &&& next.work == n.work
            &&& deeds.len() == welcome(n, source)
        }),
{
}

/// Tick and state are always those of one and the same checkpoint. A node that
/// holds a job and understands another's checkpoint, no older than what it knows,
/// then knows exactly that tick and that state, and the sender as the owner:
/// unless it runs the job itself and is the one to keep it. It leaves the job to
/// whoever is further along, and of two that are equally far to the lower. A
/// checkpoint that is older changes neither tick nor state.
pub proof fn a_checkpoint_is_taken_up_whole(
    n: NodeView,
    source: Seq<u8>,
    data: Seq<u8>,
    now: u128,
    connected: Set<Seq<u8>>,
    label: Seq<char>,
    tick: u64,
    state: Seq<u8>,
)
    requires
        source != n.me,
        said_in(data) == Some(Said::Checkpoint { label, tick, state }),
        n.work is Some,
    ensures
        ({
            let (next, deeds) = n.receiving(Some(source), data, now, connected);
            let (was, is) = (n.work->0, next.work->0);
            let mine = was.owner == Some(n.me);
            let keeps = mine && (tick < was.tick || (tick == was.tick && !bytes_before(
                source,
                n.me,
            )));
            let told = deeds.skip(welcome(n, source));
            &&& next.work is Some
            &&& is.job == was.job && is.ledger == was.ledger
            &&& is.claim_after is None
            &&& keeps_routes(n, next)
            &&& keeps ==> {
                &&& is.owner == was.owner && is.tick == was.tick && is.state == was.state
                &&& is.owner_lost_at == was.owner_lost_at
                &&& told.len() == 0
            }
            &&& !keeps ==> {
                &&& is.owner == Some(source)
                &&& is.owner_lost_at is None
                &&& tick >= was.tick ==> is.tick == tick && is.state == state
                &&& tick < was.tick ==> is.tick == was.tick && is.state == was.state
                &&& mine ==> told == seq![
                    Deed::Report(yielded_note(label, source, tick as nat, was.tick as nat)),
                ]
                &&& !mine && was.owner != Some(source) ==> told == seq![
                    Deed::Report(job_owner_note(label, source)),
                ]
                &&& was.owner == Some(source) ==> told.len() == 0
            }
        }),
{
    let (next, deeds) = n.receiving(Some(source), data, now, connected);
    let (noticed, first) = n.noticing(source, said_in(data)->0, now);
    let more = noticed.following(source, label, tick, state).1;
    assert(deeds == first + more);
    assert(deeds.skip(welcome(n, source)) =~= more);
}

/// Hearing checkpoints one after the other, none older than the one before it, a
/// node that does not run the job knows the last of them whole.
pub proof fn the_last_checkpoint_is_the_one_known(
    n: NodeView,
    source: Seq<u8>,
    first: Seq<u8>,
    second: Seq<u8>,
    t: u128,
    u: u128,
    connected: Set<Seq<u8>>,
)
    requires
        source != n.me,
        n.work is Some,
        n.work->0.owner != Some(n.me),
        said_in(first) is Some,
        said_in(first)->0 is Checkpoint,
        said_in(second) is Some,
        said_in(second)->0 is Checkpoint,
        n.work->0.tick <= said_in(first)->0->tick <= said_in(second)->0->tick,
    ensures
        ({
            let next = n.receiving(Some(source), first, t, connected).0.receiving(
                Some(source),
                second,
                u,
                connected,
            ).0;
            &&& next.work->0.tick == said_in(second)->0->tick
            &&& next.work->0.state == said_in(second)->0->state
            &&& next.work->0.owner == Some(source)
        }),
{
}

/// A node without a job does nothing about a checkpoint but notice its sender.
pub proof fn a_node_without_a_job_follows_nobody(
    n: NodeView,
    source: Seq<u8>,
    data: Seq<u8>,
    now: u128,
    connected: Set<Seq<u8>>,
)
    requires
        source != n.me,
        said_in(data) is Some,
        said_in(data)->0 is Checkpoint,
        n.work is None,
    ensures
        ({
            let (next, deeds) = n.receiving(Some(source), data, now, connected);
            &&& next.work is None
            &&& keeps_routes(n, next)
            &&& deeds.len() == welcome(n, source)
        }),
{
}

/// Every peer that is announced is reached for. An address at which another peer
/// can be seen, one that the node is not connected to, is pending afterwards; if
/// it was not pending before, the peer is reported and the address is dialled at
/// once. What else is pending plays no part and stays pending, and nothing is
/// pending twice on that account.
pub proof fn an_announced_peer_is_dialled(
    n: NodeView,
    source: Seq<u8>,
    data: Seq<u8>,
    now: u128,
    connected: Set<Seq<u8>>,
    label: Seq<char>,
    peer: Seq<u8>,
    addr: Seq<char>,
)
    requires
        source != n.me,
        said_in(data) == Some(Said::Observed { label, peer, addr }),
        peer != n.me,
    ensures
        ({
            let (next, deeds) = n.receiving(Some(source), data, now, connected);
            let told = deeds.skip(welcome(n, source));
            &&& next.work == n.work
            &&& next.my_address == n.my_address
            &&& next.reached_by == n.reached_by && next.seen_at == n.seen_at
            &&& next.mapping == n.mapping && next.dial_attempts == n.dial_attempts
            &&& !connected.contains(peer) ==> {
                &&& next.pending.contains(addr)
                &&& forall|a: Seq<char>|
                    a != addr ==> #[trigger] next.pending.contains(a) == n.pending.contains(a)
                &&& n.pending.no_duplicates() ==> next.pending.no_duplicates()
            }
            &&& !connected.contains(peer) && !n.pending.contains(addr) ==> {
                &&& next.pending.len() == n.pending.len() + 1
                &&& told == seq![
                    Deed::Report(learned_peer_note(label, peer, addr)),
                    Deed::Dial(addr),
                ]
            }
            &&& connected.contains(peer) || n.pending.contains(addr) ==> {
                &&& next.pending == n.pending
                &&& told.len() == 0
            }
        }),
{
    let (next, deeds) = n.receiving(Some(source), data, now, connected);
    let (noticed, first) = n.noticing(source, said_in(data)->0, now);
    let more = noticed.learning(label, peer, addr, connected).1;
    assert(deeds == first + more);
    assert(deeds.skip(welcome(n, source)) =~= more);
    if !connected.contains(peer) && !n.pending.contains(addr) {
        assert(next.pending == n.pending.push(addr));
        assert(next.pending[n.pending.len() as int] == addr);
        assert forall|a: Seq<char>| a != addr implies #[trigger] next.pending.contains(a)
            == n.pending.contains(a) by {
            if n.pending.contains(a) {
                let i = n.pending.index_of(a);
                assert(next.pending[i] == a);
            }
            if next.pending.contains(a) {
                let i = next.pending.index_of(a);
                assert(n.pending[i] == a);
            }
        }
    }
}

/// A newcomer that hears the roster dials into all of it: of two peers announced
/// one after the other at different addresses, neither connected, neither pending,
/// both end up pending and both were dialled.
pub proof fn the_whole_roster_is_dialled(
    n: NodeView,
    source: Seq<u8>,
    first: Seq<u8>,
    second: Seq<u8>,
    t: u128,
    u: u128,
    connected: Set<Seq<u8>>,
)
    requires
        source != n.me,
        said_in(first) is Some,
        said_in(first)->0 is Observed,
        said_in(second) is Some,
        said_in(second)->0 is Observed,
        said_in(first)->0->peer != n.me,
        said_in(second)->0->peer != n.me,
        !connected.contains(said_in(first)->0->peer),
        !connected.contains(said_in(second)->0->peer),
        !n.pending.contains(said_in(first)->0->addr),
        !n.pending.contains(said_in(second)->0->addr),
        said_in(first)->0->addr != said_in(second)->0->addr,
    ensures
        ({
            let (one, deeds) = n.receiving(Some(source), first, t, connected);
            let (two, more) = one.receiving(Some(source), second, u, connected);
            &&& deeds.contains(Deed::Dial(said_in(first)->0->addr))
            &&& more.contains(Deed::Dial(said_in(second)->0->addr))
            &&& two.pending.contains(said_in(first)->0->addr)
            &&& two.pending.contains(said_in(second)->0->addr)
        }),
{
    let (a, b) = (said_in(first)->0, said_in(second)->0);
    let (one, deeds) = n.receiving(Some(source), first, t, connected);
    let (two, more) = one.receiving(Some(source), second, u, connected);
    an_announced_peer_is_dialled(
        n,
        source,
        first,
        t,
        connected,
        a.label(),
        a->peer,
        a->addr,
    );
    an_announced_peer_is_dialled(
        one,
        source,
        second,
        u,
        connected,
        b.label(),
        b->peer,
        b->addr,
    );
    let w = welcome(n, source);
    let v = welcome(one, source);
    assert(deeds.skip(w)[1] == deeds[w + 1]);
    assert(more.skip(v)[1] == more[v + 1]);
    assert(one.pending.contains(a->addr));
}

/// A node learns where it lives by hearing itself described. It reports that
/// where it is news, and never dials itself.
pub proof fn a_node_learns_where_it_lives(
    n: NodeView,
    source: Seq<u8>,
    data: Seq<u8>,
    now: u128,
    connected: Set<Seq<u8>>,
    label: Seq<char>,
    addr: Seq<char>,
)
    requires
        source != n.me,
        said_in(data) == Some(Said::Observed { label, peer: n.me, addr }),
    ensures
        ({
            let (next, deeds) = n.receiving(Some(source), data, now, connected);
            let told = deeds.skip(welcome(n, source));
            &&& next.my_address == Some(addr)
            &&& next.pending == n.pending
            &&& next.work == n.work
            &&& next.reached_by == n.reached_by && next.seen_at == n.seen_at
            &&& next.mapping == n.mapping && next.dial_attempts == n.dial_attempts
            &&& n.my_address == Some(addr) ==> told.len() == 0
            &&& n.my_address != Some(addr) ==> told == seq![
                Deed::Report(my_address_note(label, addr)),
            ]
        }),
{
    let (next, deeds) = n.receiving(Some(source), data, now, connected);
    let (noticed, first) = n.noticing(source, said_in(data)->0, now);
    let more = noticed.learning(label, n.me, addr, connected).1;
    assert(deeds == first + more);
    assert(deeds.skip(welcome(n, source)) =~= more);
}

/// Whether `me` comes before everyone else of these.
pub open spec fn is_lowest(me: Seq<u8>, others: Set<Seq<u8>>) -> bool {
    forall|p: Seq<u8>| others.contains(p) && p != me ==> #[trigger] bytes_before(me, p)
}

/// A goodbye is heeded at once. Whoever said it is a member no more, and if it
/// was one that is reported; nobody else's membership changes. The job that it
/// ran is continued at once by this node, from the tick and the state that it
/// knows, exactly where this node is the lowest of those that are left; and any
/// other job stays with whoever runs it.
pub proof fn a_goodbye_hands_the_job_on(
    n: NodeView,
    source: Seq<u8>,
    data: Seq<u8>,
    now: u128,
    connected: Set<Seq<u8>>,
)
    requires
        source != n.me,
        said_in(data) is Some,
        said_in(data)->0 is Departing,
    ensures
        ({
            let (next, deeds) = n.receiving(Some(source), data, now, connected);
            let known = n.members.dom().contains(source);
            let left = Deed::Report(
                left_note(
                    n.members[source].label,
                    source,
                    if now >= n.members[source].joined {
                        (now - n.members[source].joined) as nat
                    } else {
                        0
                    },
                ),
            );
            let told = if known { seq![left] } else { Seq::empty() };
            let lost = n.work is Some && n.work->0.owner == Some(source);
            let lowest = is_lowest(n.me, n.members.dom().remove(source));
            &&& stays_itself(n, next)
            &&& keeps_routes(n, next)
            &&& next.counter == n.counter
            &&& next.members == n.members.remove(source)
            &&& !lost ==> next.work == n.work && deeds == told
            &&& lost ==> {
                &&& next.work is Some
                &&& next.work->0.job == n.work->0.job
                &&& next.work->0.ledger == n.work->0.ledger
                &&& next.work->0.tick == n.work->0.tick
                &&& next.work->0.state == n.work->0.state
                &&& next.work->0.claim_after == n.work->0.claim_after
                &&& next.work->0.owner_lost_at == if lowest { None } else { Some(now) }
                &&& lowest ==> next.work->0.owner == Some(n.me) && deeds == told.push(
                    Deed::Report(
                        took_over_note(
                            n.work->0.tick as nat,
                            0,
                            n.work->0.state.len(),
                            n.members.dom().remove(source).len() + 1,
                        ),
                    ),
                )
                &&& !lowest ==> next.work->0.owner is None && deeds == told
            }
        }),
{
    let (next, deeds) = n.receiving(Some(source), data, now, connected);
    let (noticed, first) = n.noticing(source, said_in(data)->0, now);
    let rest = noticed.bereft(now, set![source]);
    assert(first.len() == 0);
    assert(rest.members =~= n.members.remove(source));
    assert(rest.members.dom() =~= n.members.dom().remove(source));
    let known = n.members.dom().contains(source);
    let parting = noticed.parting(source, now).1;
    assert(deeds =~= parting);
    let lost = n.work is Some && n.work->0.owner == Some(source);
    if lost {
        assert(is_lowest(n.me, rest.members.dom()) == crate::work::takes_over(
            n.me,
            rest.members.dom(),
        ));
    } else {
        assert(next.work == n.work);
    }
    let left = Deed::Report(
        left_note(
            n.members[source].label,
            source,
            if now >= n.members[source].joined {
                (now - n.members[source].joined) as nat
            } else {
                0
            },
        ),
    );
    let told = if known { seq![left] } else { Seq::empty() };
    if lost && is_lowest(n.me, rest.members.dom()) {
        let took = Deed::Report(
            took_over_note(
                n.work->0.tick as nat,
                0,
                n.work->0.state.len(),
                n.members.dom().remove(source).len() + 1,
            ),
        );
        assert(deeds =~= told.push(took));
    } else {
        assert(deeds =~= told);
    }
}

/// Whether nothing was heard of this member for longer than it may be silent.
pub open spec fn overdue(n: NodeView, now: u128, p: Seq<u8>) -> bool {
    n.members.dom().contains(p) && now > n.members[p].last_heard + n.detect
}

/// A sweep takes for gone exactly those of whom nothing was heard for longer than
/// they may be silent, and reports each of them. Everyone else stays as they
/// were.
pub proof fn a_sweep_removes_the_overdue(n: NodeView, now: u128, gone: Seq<Seq<u8>>, p: Seq<u8>)
    requires
        gone.no_duplicates(),
        gone.to_set() == n.silent(now),
    ensures
        ({
            let (next, deeds) = n.swept(now, gone);
            &&& stays_itself(n, next)
            &&& keeps_routes(n, next)
            &&& next.counter == n.counter
            &&& gone.contains(p) == overdue(n, now, p)
            &&& next.members.dom().contains(p) == (n.members.dom().contains(p) && !overdue(
                n,
                now,
                p,
            ))
            &&& next.members.dom().contains(p) ==> next.members[p] == n.members[p]
            &&& overdue(n, now, p) ==> deeds.contains(
                Deed::Report(
                    vanished_note(
                        n.members[p].label,
                        p,
                        (now - n.members[p].last_heard) as nat,
                        n.members[p].disconnected,
                        if now >= n.members[p].joined {
                            (now - n.members[p].joined) as nat
                        } else {
                            0
                        },
                    ),
                ),
            )
            &&& gone.len() <= deeds.len() <= gone.len() + 1
        }),
{
    let (next, deeds) = n.swept(now, gone);
    assert(gone.contains(p) == gone.to_set().contains(p));
    if gone.contains(p) {
        let i = gone.index_of(p);
        assert(deeds[i] == n.mourning(now, gone)[i]);
    }
}

/// Lost work is continued without coordination. Work whose owner is gone, now or
/// since an earlier sweep, is run by this node from now on exactly where it is
/// the lowest of those that are left, and by nobody that it knows of otherwise;
/// the tick and the state are those that it knew. Any other work stays with
/// whoever runs it.
pub proof fn a_sweep_hands_lost_work_on(n: NodeView, now: u128, gone: Seq<Seq<u8>>)
    requires
        gone.no_duplicates(),
        gone.to_set() == n.silent(now),
        n.work is Some,
    ensures
        ({
            let (next, deeds) = n.swept(now, gone);
            let (was, is) = (n.work->0, next.work->0);
            let lost_now = was.owner is Some && overdue(n, now, was.owner->0);
            let lost = lost_now || (was.owner is None && was.owner_lost_at is Some);
            let since = if lost_now { now } else { was.owner_lost_at->0 };
            let left = n.members.dom().difference(gone.to_set());
            &&& next.work is Some
            &&& is.job == was.job && is.ledger == was.ledger
            &&& is.tick == was.tick && is.state == was.state
            &&& is.claim_after == was.claim_after
            &&& !lost ==> is == was && deeds.len() == gone.len()
            &&& lost && !is_lowest(n.me, left) ==> {
                &&& is.owner is None
                &&& is.owner_lost_at == Some(since)
                &&& deeds.len() == gone.len()
            }
            &&& lost && is_lowest(n.me, left) ==> {
                &&& is.owner == Some(n.me)
                &&& is.owner_lost_at is None
                &&& deeds.len() == gone.len() + 1
                &&& deeds.last() == Deed::Report(
                    took_over_note(
                        was.tick as nat,
                        if now >= since { (now - since) as nat } else { 0 },
                        was.state.len(),
                        left.len() + 1,
                    ),
                )
            }
        }),
{
    let was = n.work->0;
    let rest = n.bereft(now, gone.to_set());
    let left = n.members.dom().difference(gone.to_set());
    assert(rest.members.dom() =~= left);
    assert(is_lowest(n.me, left) == crate::work::takes_over(n.me, left));
    if was.owner is Some {
        assert(gone.to_set().contains(was.owner->0) == overdue(n, now, was.owner->0));
    }
}

/// Of two survivors that know of each other, never both continue the work.
pub proof fn two_survivors_never_both_continue(
    a: NodeView,
    b: NodeView,
    now: u128,
    later: u128,
    gone_a: Seq<Seq<u8>>,
    gone_b: Seq<Seq<u8>>,
)
    requires
        a.me != b.me,
        gone_a.no_duplicates(),
        gone_b.no_duplicates(),
        gone_a.to_set() == a.silent(now),
        gone_b.to_set() == b.silent(later),
        a.work is Some,
        b.work is Some,
        a.work->0.owner != Some(a.me),
        b.work->0.owner != Some(b.me),
        a.members.dom().contains(b.me),
        b.members.dom().contains(a.me),
        !overdue(a, now, b.me),
        !overdue(b, later, a.me),
    ensures
        !(a.swept(now, gone_a).0.work->0.owner == Some(a.me) && b.swept(
            later,
            gone_b,
        ).0.work->0.owner == Some(b.me)),
{
    a_sweep_hands_lost_work_on(a, now, gone_a);
    a_sweep_hands_lost_work_on(b, later, gone_b);
    a_sweep_removes_the_overdue(a, now, gone_a, b.me);
    a_sweep_removes_the_overdue(b, later, gone_b, a.me);
    lemma_bytes_one_way(a.me, b.me);
    assert(gone_a.contains(b.me) == gone_a.to_set().contains(b.me));
    assert(gone_b.contains(a.me) == gone_b.to_set().contains(a.me));
    let left_a = a.members.dom().difference(gone_a.to_set());
    let left_b = b.members.dom().difference(gone_b.to_set());
    assert(left_a.contains(b.me));
    assert(left_b.contains(a.me));
    assert(is_lowest(a.me, left_a) ==> bytes_before(a.me, b.me));
    assert(is_lowest(b.me, left_b) ==> bytes_before(b.me, a.me));
}

/// A tick that was answered moves the job on by one: the node then knows the
/// state that was answered and everything that it knew to exist, reports the
/// effects in their order, and last of all publishes the checkpoint of exactly
/// that tick and that state. It goes on running the job.
pub proof fn an_answered_tick_is_published(n: NodeView, outcome: Outcome)
    requires
        n.work is Some,
        n.work->0.tick < u64::MAX,
    ensures
        ({
            let (next, deeds) = n.ticked(Ok(outcome));
            let (was, is) = (n.work->0, next.work->0);
            let said = lines(lossy_text(outcome.effects@));
            &&& stays_itself(n, next) && keeps_routes(n, next)
            &&& next.members == n.members && next.counter == n.counter
            &&& next.work is Some
            &&& is.job == was.job && is.owner == was.owner
            &&& is.owner_lost_at == was.owner_lost_at && is.claim_after == was.claim_after
            &&& is.tick == was.tick + 1
            &&& is.state == outcome.state@
            &&& was.ledger.subset_of(is.ledger)
            &&& forall|t: crate::ledger::Thing| #[trigger]
                is.ledger.contains(t) <==> was.ledger.contains(t) || exists|i: int, k: int|
                 #[trigger]
                    crate::work::is_made_by(
                        crate::digest::sha256_of(was.job.code()),
                        is.tick,
                        said,
                        t,
                        i,
                        k,
                    )
            &&& deeds.subrange(said.len() as int, deeds.len() - 1) == crate::mesh::reporting(
                crate::work::stock_notes(
                    was.ledger,
                    crate::digest::sha256_of(was.job.code()),
                    is.tick,
                    said,
                ),
            )
            &&& deeds.len() > said.len()
            &&& forall|i: int|
                0 <= i < said.len() ==> deeds[i] == Deed::Report(
                    effect_note(is.tick as nat, #[trigger] said[i]),
                )
            &&& deeds.last() == Deed::Publish(checkpoint_bytes(n.label, is.tick, is.state))
            &&& forall|i: int| 0 <= i < deeds.len() - 1 ==> (#[trigger] deeds[i]) is Report
        }),
{
    let was = n.work->0;
    let said = lines(lossy_text(outcome.effects@));
    let id = crate::digest::sha256_of(was.job.code());
    let tick = (was.tick + 1) as u64;
    lemma_stock_only_grows(was.ledger, id, tick, said);
    let (next, deeds) = n.ticked(Ok(outcome));
    assert forall|t: crate::ledger::Thing| #[trigger]
        next.work->0.ledger.contains(t) <==> was.ledger.contains(t) || exists|i: int, k: int|
         #[trigger] crate::work::is_made_by(id, tick, said, t, i, k) by {
        crate::work::the_ledger_gains_what_was_made(was.ledger, id, tick, said, t);
    }
    let made = crate::mesh::reporting(crate::work::stock_notes(was.ledger, id, tick, said));
    assert(deeds.subrange(said.len() as int, deeds.len() - 1) =~= made);
}

proof fn lemma_stock_only_grows(
    known: Set<crate::ledger::Thing>,
    job: Seq<u8>,
    tick: u64,
    effects: Seq<Seq<char>>,
)
    ensures
        known.subset_of(crate::work::stocked(known, job, tick, effects)),
    decreases effects.len(),
{
    if effects.len() > 0 {
        lemma_stock_only_grows(known, job, tick, effects.drop_last());
        let before = crate::work::stocked(known, job, tick, effects.drop_last());
        if let Some((kind, n)) = crate::work::made_in(effects.last()) {
            let made = crate::work::batch(job, tick, kind, n);
            assert forall|t: crate::ledger::Thing| #[trigger] before.contains(t) implies
                crate::ledger::recorded(before, made).contains(t) by {
                crate::ledger::what_is_recorded_is_known(before, made, t);
            }
        }
    }
}

/// A tick that failed changes nothing but that nobody runs the job: tick, state
/// and what is known to exist stay, the failure is reported, and nothing is
/// published.
pub proof fn a_failed_tick_gives_the_job_up(n: NodeView, error: JobError)
    requires
        n.work is Some,
    ensures
        ({
            let (next, deeds) = n.ticked(Err(error));
            &&& next.work == Some(Duty { owner: None, ..n.work->0 })
            &&& stays_itself(n, next) && keeps_routes(n, next)
            &&& next.members == n.members && next.counter == n.counter
            &&& deeds == seq![
                Deed::Report(job_failed_note(error.spec_message(), n.work->0.tick as nat)),
            ]
        }),
{
}

/// A node claims a job that nobody runs once its time has come, and not before:
/// from the tick and the state that it knows.
pub proof fn a_job_is_claimed_in_time(n: NodeView, now: u128)
    requires
        n.work is Some,
    ensures
        ({
            let (next, deeds) = n.claiming(now);
            let was = n.work->0;
            let due = was.owner is None && was.claim_after is Some && now >= was.claim_after->0;
            &&& due ==> {
                &&& next.work == Some(Duty { owner: Some(n.me), claim_after: None, ..was })
                &&& deeds == seq![Deed::Report(claimed_note(was.tick as nat))]
            }
            &&& !due ==> next.work == n.work && deeds.len() == 0
            &&& stays_itself(n, next) && keeps_routes(n, next)
            &&& next.members == n.members && next.counter == n.counter
        }),
{
}

/// Every pending address is dialled again, each time, and nothing else is. The
/// first attempt is reported, and every fifteenth.
pub proof fn every_pending_address_is_dialled_again(n: NodeView, addr: Seq<char>)
    requires
        n.dial_attempts < u32::MAX,
    ensures
        ({
            let (next, deeds) = n.dialled();
            let attempts = n.dial_attempts + 1;
            let told = attempts == 1 || attempts % 15 == 0;
            &&& deeds.contains(Deed::Dial(addr)) == n.pending.contains(addr)
            &&& deeds.len() == n.pending.len() + (if told { 1int } else { 0 })
            &&& told ==> deeds.last() == Deed::Report(
                dialling_note(n.pending.len(), attempts as nat),
            )
            &&& next.dial_attempts == attempts
            &&& next == (NodeView { dial_attempts: next.dial_attempts, ..n })
        }),
{
    let (next, deeds) = n.dialled();
    if n.pending.contains(addr) {
        let i = n.pending.index_of(addr);
        assert(deeds[i] == Deed::Dial(addr));
    }
    if deeds.contains(Deed::Dial(addr)) {
        let i = deeds.index_of(Deed::Dial(addr));
        assert(n.pending[i] == addr);
    }
}

/// A peer that was reached is remembered: at the address that was dialled, which
/// is then no longer pending, and as seen where it was reached, which everyone is
/// told. What is known of any other peer stays. That all were reached is reported
/// exactly where the last pending address was.
pub proof fn a_reached_peer_is_remembered(
    n: NodeView,
    peer: Seq<u8>,
    dialled: Option<Seq<char>>,
    reached: Seq<char>,
    other: Seq<u8>,
    a: Seq<char>,
)
    requires
        other != peer,
    ensures
        ({
            let (next, deeds) = n.met(peer, dialled, reached);
            &&& stays_itself(n, next)
            &&& next.work == n.work && next.members == n.members && next.counter == n.counter
            &&& next.my_address == n.my_address && next.mapping == n.mapping
            &&& next.dial_attempts == n.dial_attempts
            &&& next.seen_at == n.seen_at.insert(peer, reached)
            &&& next.known_routes(other) == n.known_routes(other)
            &&& next.known_routes(peer).contains(a) == (n.known_routes(peer).contains(a)
                || dialled == Some(a))
            &&& next.pending.contains(a) == (n.pending.contains(a) && dialled != Some(a))
            &&& next.pending.len() <= n.pending.len()
            &&& n.pending.no_duplicates() ==> next.pending.no_duplicates()
            &&& n.known_routes(peer).no_duplicates() ==> next.known_routes(peer).no_duplicates()
            &&& dialled is None ==> next.pending == n.pending && next.reached_by == n.reached_by
            &&& deeds[0] == Deed::Report(
                connected_note(peer, reached, n.dial_attempts as nat, next.pending.len()),
            )
            &&& deeds.last() == Deed::Publish(observed_bytes(n.label, peer, reached))
            &&& (n.pending.len() > 0 && next.pending.len() == 0) ==> deeds.len() == 3 && deeds[1]
                == Deed::Report(all_reached_note())
            &&& !(n.pending.len() > 0 && next.pending.len() == 0) ==> deeds.len() == 2
        }),
{
    if let Some(addr) = dialled {
        crate::mesh::a_reached_address_is_settled(n, peer, addr, reached);
        lemma_without_is_shorter(n.pending, addr);
        let known = n.known_routes(peer);
        if !known.contains(addr) {
            lemma_no_duplicates(known, addr);
        }
        if a != addr && !known.contains(addr) {
            let longer = known.push(addr);
            if known.contains(a) {
                let i = known.index_of(a);
                assert(longer[i] == a);
            }
            if longer.contains(a) {
                let i = longer.index_of(a);
                assert(known[i] == a);
            }
        }
    }
}

proof fn lemma_without_is_shorter(addresses: Seq<Seq<char>>, addr: Seq<char>)
    ensures
        ({
            let rest = crate::mesh::without(addresses, addr);
            &&& rest.len() <= addresses.len()
            &&& addresses.no_duplicates() ==> rest.no_duplicates()
            &&& forall|a: Seq<char>| #[trigger] rest.contains(a) ==> addresses.contains(a)
        }),
    decreases addresses.len(),
{
    if addresses.len() > 0 {
        let (earlier, last) = (addresses.drop_last(), addresses.last());
        lemma_without_is_shorter(earlier, addr);
        let before = crate::mesh::without(earlier, addr);
        let rest = crate::mesh::without(addresses, addr);
        assert forall|a: Seq<char>| #[trigger] rest.contains(a) implies addresses.contains(a) by {
            let i = rest.index_of(a);
            if i < before.len() {
                assert(before[i] == a);
                assert(before.contains(a));
                let k = earlier.index_of(a);
                assert(addresses[k] == a);
            } else {
                assert(addresses[addresses.len() - 1] == a);
            }
        }
        if addresses.no_duplicates() {
            assert(earlier.no_duplicates());
            if last != addr {
                if before.contains(last) {
                    let k = earlier.index_of(last);
                    assert(addresses[k] == addresses[addresses.len() - 1]);
                }
                lemma_no_duplicates(before, last);
            }
        }
    }
}

/// As long as a connection to a peer is left, nothing has happened. Once none is,
/// the peer counts as disconnected but is still a member, heard when it was; every
/// address at which it was reached is pending, and where that adds one, attempts
/// are counted afresh and the redialling is reported. What is known of any other
/// peer stays.
pub proof fn a_closed_connection_is_tried_again(
    n: NodeView,
    peer: Seq<u8>,
    remaining: u32,
    other: Seq<u8>,
)
    requires
        other != peer,
    ensures
        ({
            let (next, deeds) = n.parted(peer, remaining);
            let added = next.pending.len() - n.pending.len();
            &&& remaining > 0 ==> next == n && deeds.len() == 0
            &&& remaining == 0 ==> {
                &&& stays_itself(n, next)
                &&& next.work == n.work && next.counter == n.counter
                &&& next.reached_by == n.reached_by
                &&& next.my_address == n.my_address && next.mapping == n.mapping
                &&& next.members.dom() == n.members.dom()
                &&& n.members.dom().contains(peer) ==> {
                    &&& next.members[peer].disconnected
                    &&& next.members[peer].last_heard == n.members[peer].last_heard
                    &&& next.members[peer].joined == n.members[peer].joined
                    &&& next.members[peer].label == n.members[peer].label
                }
                &&& next.members[other] == n.members[other]
                &&& next.seen_at == n.seen_at.remove(peer)
                &&& added >= 0
                &&& next.pending.take(n.pending.len() as int) == n.pending
                &&& n.pending.no_duplicates() ==> next.pending.no_duplicates()
                &&& added == 0 ==> next.dial_attempts == n.dial_attempts && deeds.len() == 0
                &&& added > 0 ==> next.dial_attempts == 0 && deeds == seq![
                    Deed::Report(redialling_note(peer, added as nat)),
                ]
            }
        }),
{
    if remaining == 0 {
        let next = n.parted(peer, remaining).0;
        lemma_resuming_adds(n.pending, n.known_routes(peer));
        assert(next.members.dom() =~= n.members.dom());
    }
}

proof fn lemma_no_duplicates(addresses: Seq<Seq<char>>, addr: Seq<char>)
    requires
        !addresses.contains(addr),
    ensures
        addresses.no_duplicates() ==> addresses.push(addr).no_duplicates(),
{
    let longer = addresses.push(addr);
    if addresses.no_duplicates() {
        assert forall|i: int, j: int| 0 <= i < longer.len() && 0 <= j < longer.len() && i != j implies
            longer[i] != longer[j] by {
            if i < addresses.len() {
                assert(addresses.contains(longer[i]));
            }
            if j < addresses.len() {
                assert(addresses.contains(longer[j]));
            }
        }
    }
}

proof fn lemma_resuming_adds(pending: Seq<Seq<char>>, known: Seq<Seq<char>>)
    ensures
        ({
            let next = crate::mesh::resuming(pending, known);
            &&& next.len() >= pending.len()
            &&& next.take(pending.len() as int) == pending
            &&& pending.no_duplicates() ==> next.no_duplicates()
        }),
    decreases known.len(),
{
    if known.len() > 0 {
        lemma_resuming_adds(pending, known.drop_last());
        let before = crate::mesh::resuming(pending, known.drop_last());
        if !before.contains(known.last()) {
            lemma_no_duplicates(before, known.last());
        }
        assert(before.push(known.last()).take(pending.len() as int) =~= before.take(
            pending.len() as int,
        ));
    } else {
        assert(pending.take(pending.len() as int) =~= pending);
    }
}

/// A heartbeat counts, and is published with its number; nothing else changes.
pub proof fn a_heartbeat_counts(n: NodeView)
    requires
        n.counter < u64::MAX,
    ensures
        n.beating().0.counter == n.counter + 1,
        n.beating().0 == (NodeView { counter: n.beating().0.counter, ..n }),
        n.beating().1 == seq![
            Deed::Publish(heartbeat_bytes(n.label, (n.counter + 1) as u64)),
        ],
{
}

/// Everyone is told where each peer can be seen, once each.
pub proof fn every_sighting_is_announced(n: NodeView, peers: Seq<Seq<u8>>, p: Seq<u8>)
    requires
        peers.no_duplicates(),
        peers.to_set() == n.seen_at.dom(),
        n.seen_at.dom().contains(p),
    ensures
        n.announcing(peers).len() == peers.len(),
        n.announcing(peers).contains(Deed::Publish(observed_bytes(n.label, p, n.seen_at[p]))),
        forall|i: int|
            0 <= i < peers.len() ==> exists|q: Seq<u8>| #[trigger]
                n.seen_at.dom().contains(q) && #[trigger] n.announcing(peers)[i] == Deed::Publish(
                    observed_bytes(n.label, q, n.seen_at[q]),
                ),
{
    assert(peers.to_set().contains(p));
    let k = peers.index_of(p);
    assert(n.announcing(peers)[k] == Deed::Publish(observed_bytes(n.label, p, n.seen_at[p])));
    assert forall|i: int| 0 <= i < peers.len() implies exists|q: Seq<u8>| #[trigger]
        n.seen_at.dom().contains(q) && #[trigger] n.announcing(peers)[i] == Deed::Publish(
            observed_bytes(n.label, q, n.seen_at[q]),
        ) by {
        assert(peers.to_set().contains(peers[i]));
    }
}

/// Everyone found on the local network but the node itself is introduced and
/// dialled.
pub proof fn everyone_found_is_dialled(
    n: NodeView,
    found: Seq<(Seq<u8>, Seq<char>)>,
    i: int,
)
    requires
        0 <= i < found.len(),
        found[i].0 != n.me,
    ensures
        n.meeting(found).contains(Deed::Introduce(found[i].0)),
        n.meeting(found).contains(Deed::Dial(found[i].1)),
    decreases found.len(),
{
    let all = n.meeting(found);
    let before = n.meeting(found.drop_last());
    if i < found.len() - 1 {
        everyone_found_is_dialled(n, found.drop_last(), i);
        let j = before.index_of(Deed::Introduce(found[i].0));
        let k = before.index_of(Deed::Dial(found[i].1));
        assert(all[j] == before[j]);
        assert(all[k] == before[k]);
    } else {
        assert(all[before.len() as int] == Deed::Introduce(found[i].0));
        assert(all[before.len() as int + 1] == Deed::Dial(found[i].1));
    }
}

/// What a router agreed to is known, and reported where it is news; that it did
/// not agree is known too, and reported every time. Nothing else changes.
pub proof fn a_mapping_is_known_and_reported(
    n: NodeView,
    mapping: Mapping,
    error: Seq<char>,
)
    ensures
        n.mapped(Ok(mapping)).0 == (NodeView { mapping: Some(mapping), ..n }),
        n.mapping == Some(mapping) ==> n.mapped(Ok(mapping)).1.len() == 0,
        n.mapping != Some(mapping) ==> n.mapped(Ok(mapping)).1 == seq![
            Deed::Report(
                port_mapped_note(
                    mapping.external_ip,
                    mapping.external_port as nat,
                    mapping.lifetime as nat,
                    mapping.external_port == n.port,
                ),
            ),
        ],
        n.mapped(Err(error)).0 == (NodeView { mapping: None, ..n }),
        n.mapped(Err(error)).1 == seq![
            Deed::Report(port_map_failed_note(error, n.mapping is Some)),
        ],
{
}

/// A node begins with what it is told and nothing else: every address that it is
/// to dial is pending, and it knows of nobody. A job that it holds is at its start
/// and run by nobody.
pub proof fn a_node_begins_with_what_it_is_told(
    label: Seq<char>,
    port: u16,
    mdns: bool,
    detect: u128,
    me: Seq<u8>,
    dial: Seq<Seq<char>>,
    job: Option<crate::job::Job>,
    own: bool,
    now: u128,
)
    requires
        now + 3 * detect <= u128::MAX,
    ensures
        ({
            let n = NodeView::newborn(label, port, mdns, detect, me, dial, job, own, now);
            &&& n.label == label && n.port == port && n.mdns == mdns
            &&& n.detect == detect && n.me == me
            &&& n.pending == dial
            &&& n.dial_attempts == 0 && n.counter == 0
            &&& n.members.dom() == Set::<Seq<u8>>::empty()
            &&& n.reached_by.dom() == Set::<Seq<u8>>::empty()
            &&& n.seen_at.dom() == Set::<Seq<u8>>::empty()
            &&& n.my_address is None && n.mapping is None
            &&& n.work is Some == job is Some
            &&& n.work matches Some(duty) ==> {
                &&& Some(duty.job) == job
                &&& duty.tick == 0 && duty.state.len() == 0
                &&& duty.ledger == Set::<crate::ledger::Thing>::empty()
                &&& duty.owner is None && duty.owner_lost_at is None
                &&& duty.claim_after is Some == own
                &&& own ==> duty.claim_after->0 == now + 3 * detect
            }
        }),
{
}

/// The job is run from what the node knows: the state that it holds, and the
/// world as of the tick that it is at.
pub proof fn a_tick_is_run_from_what_is_known(duty: Duty, res: Result<Outcome, JobError>)
    requires
        crate::mesh::may_come_to(duty, res),
    ensures
        exists|inputs: Seq<u8>| #[trigger]
            duty.job.may_end(duty.state, inputs, res) && inputs.len() == 16
                && crate::factory::number_at(inputs, 0, 8) == duty.tick
                && crate::factory::input_at(inputs, 8) == 4 && crate::factory::input_at(inputs, 12)
                == 3,
{
    crate::job::the_world_is_read_as_it_is(duty.tick);
    let inputs = crate::job::world_bytes(duty.tick);
    assert(duty.job.may_end(duty.state, inputs, res));
}

/// An attempt that failed is told of unless it timed out: that happens constantly
/// while two sides are trying to meet.
pub proof fn only_timeouts_are_passed_over(before: Seq<char>, behind: Seq<char>, reason: Seq<char>)
    ensures
        !crate::mesh::worth_telling(before + "Timeout"@ + behind),
        !crate::mesh::worth_telling(before + "timed out"@ + behind),
        !crate::mesh::worth_telling(reason) ==> crate::text::holds_part(reason, "Timeout"@)
            || crate::text::holds_part(reason, "timed out"@),
{
    crate::text::a_part_is_held(before, "Timeout"@, behind);
    crate::text::a_part_is_held(before, "timed out"@, behind);
}

} // verus!
