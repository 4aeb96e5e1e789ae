//! A job the whole mesh holds, and who is running it.
use crate::digest::sha256_of;
use crate::job::Job;
use crate::ledger::{of_kind, production, recorded, Ledger, Serial, Thing};
use crate::notice::{produced, produced_note, Note, Report};
use crate::order::{bytes_before, lemma_bytes_in_a_row, lemma_bytes_one_way};
use crate::peer::{peer_in, PeerId};
use crate::peermap::PeerMap;
use crate::factory::{
    finished, lemma_finished_at_most, request_text, stepped, Factory, STEEL_REORDER_AT,
};
use crate::text::{
    decimal, is_space, lemma_first_line, lemma_first_word, lemma_one_word, lines, lines_of,
    number_up_to, numbers_round_trip, read_number, texts, words, words_of,
};
use vstd::prelude::*;

verus! {

/// What is known about one other node. Instants are nanoseconds since this node
/// started.
pub struct Member {
    pub label: String,
    pub joined: u128,
    pub last_heard: u128,
    /// True once every transport connection to this peer has closed. A useful
    /// hint that something changed, and deliberately not used to decide whether
    /// a departure was orderly.
    pub disconnected: bool,
}

/// What is known about one other node, as values.
pub struct Membership {
    pub label: Seq<char>,
    pub joined: u128,
    pub last_heard: u128,
    pub disconnected: bool,
}

impl View for Member {
    type V = Membership;

    open spec fn view(&self) -> Membership {
        Membership {
            label: self.label@,
            joined: self.joined,
            last_heard: self.last_heard,
            disconnected: self.disconnected,
        }
    }
}

/// A job the whole mesh holds, and the bookkeeping for who is running it.
pub struct Work {
    pub job: Job,
    /// Everything this node knows to exist. Not a count: see `ledger`.
    pub ledger: Ledger,
    /// The node currently advancing it. Every node agrees on this by watching
    /// checkpoints arrive, so nobody has to be told.
    pub owner: Option<PeerId>,
    pub state: Vec<u8>,
    pub tick: u64,
    /// When this node noticed the owner disappear. Only set between the
    /// disappearance and the takeover, and used to measure the gap.
    pub owner_lost_at: Option<u128>,
    /// When this node may claim work nobody has answered for.
    ///
    /// A node told to run a job listens before doing so. Claiming immediately
    /// means a node returning from a reboot takes work that somebody else has
    /// been doing perfectly well, and both then run it: wasteful, and only
    /// harmless because identical work produces identical results.
    pub claim_after: Option<u128>,
}

/// A job and who is running it, as values.
#[verifier::ext_equal]
pub struct Duty {
    pub job: Job,
    pub ledger: Set<Thing>,
    pub owner: Option<Seq<u8>>,
    pub state: Seq<u8>,
    pub tick: u64,
    pub owner_lost_at: Option<u128>,
    pub claim_after: Option<u128>,
}

impl View for Work {
    type V = Duty;

    open spec fn view(&self) -> Duty {
        Duty {
            job: self.job,
            ledger: self.ledger@,
            owner: peer_in(self.owner),
            state: self.state@,
            tick: self.tick,
            owner_lost_at: self.owner_lost_at,
            claim_after: self.claim_after,
        }
    }
}

/// Whether the node that is `mine.0` ticks into the job and is `mine.1` leaves
/// the job to the node that is `theirs.0` ticks into it and is `theirs.1`.
pub open spec fn yields(mine: (u64, Seq<u8>), theirs: (u64, Seq<u8>)) -> bool {
    theirs.0 > mine.0 || (theirs.0 == mine.0 && bytes_before(theirs.1, mine.1))
}

/// Whether `me` continues the job when these are the others.
pub open spec fn takes_over(me: Seq<u8>, others: Set<Seq<u8>>) -> bool {
    forall|p: Seq<u8>| #[trigger] others.contains(p) && p != me ==> bytes_before(me, p)
}

impl Work {
    /// The job may be run, and the ledger is in order.
    pub open spec fn wf(&self) -> bool {
        self.job.wf() && self.ledger.wf()
    }

    /// Which of two nodes running the same job should keep it.
    ///
    /// Both sides evaluate this and must agree, or the job either stalls
    /// because each yields to the other, or is run twice because neither does.
    ///
    /// Whoever is further along keeps it: their work is the work that would be
    /// lost. Ties go to the lower identifier, which is arbitrary and, more
    /// importantly, the same arbitrary answer on both machines.
    pub fn theirs(mine: (u64, &PeerId), theirs: (u64, &PeerId)) -> (yes: bool)
        ensures
            yes == yields((mine.0, mine.1@), (theirs.0, theirs.1@)),
    {
        theirs.0 > mine.0 || (theirs.0 == mine.0 && theirs.1.before(mine.1))
    }

    /// Decides, with no coordination at all, whether this node should continue
    /// the job now that its owner is gone.
    ///
    /// The rule is simply the lowest peer identifier among everyone still
    /// present. Every survivor holds the same membership list and applies the
    /// same comparison, so they all reach the same answer without exchanging a
    /// single message.
    ///
    /// A node that appears in its own membership is not held against itself.
    pub fn should_take_over(me: &PeerId, members: &PeerMap<Member>) -> (yes: bool)
        requires
            members.wf(),
        ensures
            yes == takes_over(me@, members@.dom()),
    {
        let mut at: usize = 0;
        let all = members.len();
        proof {
            members.lemma_order();
        }
        while at < all
            invariant
                members.wf(),
                at <= all,
                all == members.order().len(),
                members.order().to_set() == members@.dom(),
                forall|i: int|
                    0 <= i < at && members.order()[i] != me@ ==> bytes_before(
                        me@,
                        #[trigger] members.order()[i],
                    ),
            decreases all - at,
        {
            let peer = members.peer_at(at);
            if !peer.same(me) && !me.before(&peer) {
                assert(members.order().contains(peer@));
                assert(members@.dom().contains(peer@));
                return false;
            }
            at += 1;
        }
        assert forall|p: Seq<u8>| #[trigger] members@.dom().contains(p) && p != me@ implies bytes_before(
            me@,
            p,
        ) by {
            assert(members.order().contains(p));
            let i = members.order().index_of(p);
            assert(members.order()[i] == p);
        }
        true
    }
}

/// Two nodes running the same job always agree on which of them keeps it:
/// exactly one of them yields.
pub proof fn exactly_one_of_two_yields(
    tick_a: u64,
    peer_a: Seq<u8>,
    tick_b: u64,
    peer_b: Seq<u8>,
)
    requires
        peer_a != peer_b,
    ensures
        yields((tick_a, peer_a), (tick_b, peer_b)) == !yields((tick_b, peer_b), (tick_a, peer_a)),
{
    lemma_bytes_one_way(peer_a, peer_b);
    lemma_bytes_one_way(peer_b, peer_a);
}

/// Of some peers, one comes before all the others.
proof fn lemma_someone_is_lowest(peers: Set<Seq<u8>>) -> (lowest: Seq<u8>)
    requires
        peers.finite(),
        peers.len() > 0,
    ensures
        peers.contains(lowest),
        takes_over(lowest, peers.remove(lowest)),
    decreases peers.len(),
{
    let one = peers.choose();
    let rest = peers.remove(one);
    if rest.len() == 0 {
        assert(rest =~= Set::empty());
        one
    } else {
        let low = lemma_someone_is_lowest(rest);
        lemma_bytes_one_way(one, low);
        if bytes_before(one, low) {
            assert forall|p: Seq<u8>| #[trigger] rest.contains(p) && p != one implies bytes_before(
                one,
                p,
            ) by {
                if p != low {
                    assert(rest.remove(low).contains(p));
                    lemma_bytes_in_a_row(one, low, p);
                }
            }
            one
        } else {
            assert forall|p: Seq<u8>| #[trigger] peers.remove(low).contains(p) && p != low implies bytes_before(
                low,
                p,
            ) by {
                if p != one {
                    assert(rest.remove(low).contains(p));
                }
            }
            low
        }
    }
}

/// Whoever is left, exactly one of them continues the job: somebody does, and
/// never two.
pub proof fn exactly_one_survivor_takes_over(peers: Set<Seq<u8>>)
    requires
        peers.finite(),
        peers.len() > 0,
    ensures
        exists|p: Seq<u8>| #[trigger] peers.contains(p) && takes_over(p, peers.remove(p)),
        forall|p: Seq<u8>, q: Seq<u8>| #[trigger]
            peers.contains(p) && #[trigger] peers.contains(q) && takes_over(p, peers.remove(p))
                && takes_over(q, peers.remove(q)) ==> p == q,
{
    let lowest = lemma_someone_is_lowest(peers);
    assert forall|p: Seq<u8>, q: Seq<u8>| #[trigger]
        peers.contains(p) && #[trigger] peers.contains(q) && takes_over(p, peers.remove(p))
            && takes_over(q, peers.remove(q)) implies p == q by {
        if p != q {
            assert(peers.remove(p).contains(q));
            assert(peers.remove(q).contains(p));
            lemma_bytes_one_way(p, q);
        }
    }
}

/// A node that somehow sees itself is no less eligible for it.
pub proof fn seeing_oneself_changes_nothing(me: Seq<u8>, others: Set<Seq<u8>>)
    ensures
        takes_over(me, others.insert(me)) == takes_over(me, others),
{
    assert forall|p: Seq<u8>| #[trigger] others.contains(p) implies others.insert(me).contains(p) by {}
    if takes_over(me, others.insert(me)) {
        assert forall|p: Seq<u8>| #[trigger] others.contains(p) && p != me implies bytes_before(
            me,
            p,
        ) by {
            assert(others.insert(me).contains(p));
        }
    }
}

/// A lone survivor takes over.
pub proof fn a_lone_survivor_takes_over(me: Seq<u8>)
    ensures
        takes_over(me, Set::empty()),
{
}

/// What a line of effects says was made: a kind of thing, and how many of it.
/// One, unless a number says otherwise.
pub open spec fn made_in(line: Seq<char>) -> Option<(Seq<char>, nat)> {
    let found = words(line);
    if found.len() < 2 || found[0] != "produce"@ {
        None
    } else if found.len() < 3 {
        Some((found[1], 1))
    } else {
        match number_up_to(found[2], 10, u32::MAX as nat) {
            Some(n) => Some((found[1], n)),
            None => Some((found[1], 1)),
        }
    }
}

/// What a line of effects says was made.
pub open spec fn made_values(made: Option<(String, u32)>) -> Option<(Seq<char>, nat)> {
    match made {
        Some((kind, n)) => Some((kind@, n as nat)),
        None => None,
    }
}

/// Reads what a line of effects says was made.
pub fn read_production(line: &str) -> (made: Option<(String, u32)>)
    ensures
        made_values(made) == made_in(line@),
{
    let found = words_of(line);
    proof {
        assert(texts(found@) == words(line@));
        if found@.len() >= 1 {
            assert(words(line@)[0] == found@[0]@);
        }
        if found@.len() >= 2 {
            assert(words(line@)[1] == found@[1]@);
        }
        if found@.len() >= 3 {
            assert(words(line@)[2] == found@[2]@);
        }
    }
    if found.len() < 2 || found[0] != "produce".to_owned() {
        return None;
    }
    let kind = found[1].clone();
    if found.len() < 3 {
        return Some((kind, 1));
    }
    match read_number(&found[2], 10, u32::MAX as u64) {
        Some(n) => Some((kind, n as u32)),
        None => Some((kind, 1)),
    }
}

/// The things that `n` of a kind are, made by this job at this tick.
pub open spec fn batch(job: Seq<u8>, tick: u64, kind: Seq<char>, n: nat) -> Seq<Thing> {
    Seq::new(n, |i: int| (kind, sha256_of(production(job, tick, kind, i as u32))))
}

/// What is known to exist once the effects have been taken into account.
pub open spec fn stocked(
    known: Set<Thing>,
    job: Seq<u8>,
    tick: u64,
    effects: Seq<Seq<char>>,
) -> Set<Thing>
    decreases effects.len(),
{
    if effects.len() == 0 {
        known
    } else {
        let before = stocked(known, job, tick, effects.drop_last());
        match made_in(effects.last()) {
            Some((kind, n)) => recorded(before, batch(job, tick, kind, n)),
            None => before,
        }
    }
}

/// What is reported of things that were made: how many the job says it made,
/// how many of those were new, and how many there are now.
pub open spec fn stock_note(
    before: Set<Thing>,
    job: Seq<u8>,
    tick: u64,
    kind: Seq<char>,
    n: nat,
) -> Note {
    let after = recorded(before, batch(job, tick, kind, n));
    produced_note(kind, n, (after.len() - before.len()) as nat, of_kind(after, kind), tick as nat)
}

/// What is reported of the effects: a note for each line that says something
/// was made.
pub open spec fn stock_notes(
    known: Set<Thing>,
    job: Seq<u8>,
    tick: u64,
    effects: Seq<Seq<char>>,
) -> Seq<Note>
    decreases effects.len(),
{
    if effects.len() == 0 {
        Seq::empty()
    } else {
        let earlier = effects.drop_last();
        let before = stocked(known, job, tick, earlier);
        match made_in(effects.last()) {
            Some((kind, n)) => stock_notes(known, job, tick, earlier).push(
                stock_note(before, job, tick, kind, n),
            ),
            None => stock_notes(known, job, tick, earlier),
        }
    }
}

/// Reports, as values.
pub open spec fn notes(reports: Seq<Report>) -> Seq<Note> {
    Seq::new(reports.len(), |i: int| reports[i]@)
}

/// Records that `n` of a kind were made, and tells how many were new.
fn record_batch(ledger: &mut Ledger, job: &[u8; 32], tick: u64, kind: &str, n: u32) -> (fresh: u32)
    requires
        old(ledger).wf(),
    ensures
        final(ledger).wf(),
        final(ledger)@ == recorded(old(ledger)@, batch(job@, tick, kind@, n as nat)),
        fresh == final(ledger)@.len() - old(ledger)@.len(),
{
    let ghost known = ledger@;
    proof {
        ledger.lemma_finite();
    }
    let mut fresh: u32 = 0;
    let mut ordinal: u32 = 0;
    assert(batch(job@, tick, kind@, 0) =~= Seq::<Thing>::empty());
    while ordinal < n
        invariant
            ordinal <= n,
            fresh <= ordinal,
            ledger.wf(),
            ledger@.finite(),
            ledger@ == recorded(known, batch(job@, tick, kind@, ordinal as nat)),
            fresh == ledger@.len() - known.len(),
        decreases n - ordinal,
    {
        let serial = Serial::derive(job, tick, kind, ordinal);
        let is_new = ledger.record(kind, serial);
        proof {
            let longer = batch(job@, tick, kind@, (ordinal + 1) as nat);
            assert(longer.drop_last() =~= batch(job@, tick, kind@, ordinal as nat));
            assert(longer.last() == (kind@, serial@));
        }
        if is_new {
            fresh = fresh + 1;
        }
        ordinal = ordinal + 1;
    }
    fresh
}

/// Turns "produce widget 2" into two widgets with identities of their own.
///
/// The serial is derived from the job's code, the tick, and which item of that
/// tick it is, never assigned by anyone. So when two nodes briefly continue the
/// same job, they do not make two widgets each that someone must later
/// reconcile: they make the same widgets, and recording one twice records it
/// once. There is nothing to deduplicate because there is no duplicate.
pub fn record_production(work: &mut Work, effects: &str) -> (reports: Vec<Report>)
    requires
        old(work).wf(),
    ensures
        final(work).wf(),
        final(work)@ == (Duty {
            ledger: stocked(
                old(work)@.ledger,
                sha256_of(old(work)@.job.code()),
                old(work)@.tick,
                lines(effects@),
            ),
            ..old(work)@
        }),
        notes(reports@) == stock_notes(
            old(work)@.ledger,
            sha256_of(old(work)@.job.code()),
            old(work)@.tick,
            lines(effects@),
        ),
{
    let ghost known = work@.ledger;
    let ghost id = sha256_of(work@.job.code());
    let ghost all = lines(effects@);
    let found = lines_of(effects);
    let job: [u8; 32] = *work.job.id();
    let tick = work.tick;
    let mut reports: Vec<Report> = Vec::new();
    let mut at: usize = 0;
    assert(all.take(0) =~= Seq::<Seq<char>>::empty());
    assert(notes(reports@) =~= Seq::<Note>::empty());
    while at < found.len()
        invariant
            at <= found@.len(),
            texts(found@) == all,
            job@ == id,
            id == sha256_of(old(work)@.job.code()),
            tick == old(work)@.tick,
            work.wf(),
            work@ == (Duty { ledger: work@.ledger, ..old(work)@ }),
            work@.ledger == stocked(known, id, tick, all.take(at as int)),
            notes(reports@) == stock_notes(known, id, tick, all.take(at as int)),
        decreases found@.len() - at,
    {
        let ghost so_far = reports@;
        proof {
            let longer = all.take(at + 1);
            assert(longer.drop_last() =~= all.take(at as int));
            assert(all[at as int] == found@[at as int]@);
            assert(longer.last() == all[at as int]);
        }
        if let Some((kind, n)) = read_production(&found[at]) {
            let fresh = record_batch(&mut work.ledger, &job, tick, &kind, n);
            let total = work.ledger.count(&kind);
            let report = produced(&kind, n, fresh, total, tick);
            reports.push(report);
            assert(notes(reports@) =~= notes(so_far).push(report@));
        }
        at += 1;
    }
    assert(all.take(at as int) =~= all);
    reports
}

/// What a factory says it made is what the ledger hears.
proof fn lemma_widgets_are_heard(n: nat)
    requires
        0 < n <= u32::MAX,
    ensures
        ({
            let line = "produce widget "@ + decimal(n);
            &&& made_in(line) == Some(("widget"@, n))
            &&& line.last() != '\r'
            &&& forall|i: int| 0 <= i < line.len() ==> #[trigger] line[i] != '\n'
        }),
{
    reveal_strlit("produce widget ");
    reveal_strlit("produce");
    reveal_strlit("widget");
    numbers_round_trip(n, u32::MAX as nat);
    let (verb, kind, count) = ("produce"@, "widget"@, decimal(n));
    let line = "produce widget "@ + count;
    let rest = kind + seq![' '] + count;
    assert(line =~= verb + seq![' '] + rest);
    lemma_first_word(verb, rest);
    lemma_first_word(kind, count);
    assert forall|i: int| 0 <= i < count.len() implies !is_space(#[trigger] count[i]) by {
        assert('0' <= count[i] <= '9');
    }
    lemma_one_word(count);
    let found = words(line);
    assert(found =~= seq![verb, kind, count]);
    assert forall|i: int| 0 <= i < line.len() implies #[trigger] line[i] != '\n' by {
        if i >= 15 {
            assert(line[i] == count[i - 15]);
        }
    }
    assert(line.last() == count[count.len() - 1]);
}

/// A request for steel makes nothing.
proof fn lemma_requests_make_nothing()
    ensures
        ({
            let line = "request steel "@ + decimal(40);
            &&& made_in(line) is None
            &&& line.last() != '\r'
            &&& forall|i: int| 0 <= i < line.len() ==> #[trigger] line[i] != '\n'
        }),
{
    reveal_strlit("request steel ");
    reveal_strlit("request");
    reveal_strlit("produce");
    numbers_round_trip(40, 40);
    let count = decimal(40);
    let line = "request steel "@ + count;
    let verb = "request"@;
    let rest = line.skip(8);
    assert(line =~= verb + seq![' '] + rest);
    lemma_first_word(verb, rest);
    assert(words(line)[0] == verb);
    assert(verb[0] != "produce"@[0]);
    assert forall|i: int| 0 <= i < line.len() implies #[trigger] line[i] != '\n' by {
        if i >= 14 {
            assert(line[i] == count[i - 14]);
        }
    }
    assert(line.last() == count[count.len() - 1]);
}

/// The widgets that a factory finishes in a tick, and nothing else, are what the
/// ledger gains by its effects.
pub proof fn finished_widgets_reach_the_ledger(
    f: Factory,
    delivered: nat,
    workers: nat,
    known: Set<Thing>,
    job: Seq<u8>,
    tick: u64,
)
    requires
        f.wf(),
    ensures
        ({
            let effects = stepped(f, delivered, workers).1;
            let n = if workers == 0 {
                0
            } else {
                finished(f.line, workers)
            };
            stocked(known, job, tick, lines(effects)) == recorded(
                known,
                batch(job, tick, "widget"@, n),
            )
        }),
{
    let (next, effects) = stepped(f, delivered, workers);
    let n = if workers == 0 {
        0
    } else {
        finished(f.line, workers)
    };
    lemma_finished_at_most(f.line, workers);
    reveal_strlit("\n");
    assert("\n"@ =~= seq!['\n']);
    let asked = "request steel "@ + decimal(40);
    lemma_requests_make_nothing();
    let rest = request_text(next.steel);
    assert(lines(Seq::<char>::empty()) =~= Seq::<Seq<char>>::empty());
    if next.steel < STEEL_REORDER_AT {
        lemma_first_line(asked, Seq::empty());
        assert(rest =~= asked + seq!['\n'] + Seq::<char>::empty());
        assert(lines(rest) =~= seq![asked]);
    } else {
        assert(lines(rest) =~= Seq::<Seq<char>>::empty());
    }
    let none = Seq::<Seq<char>>::empty();
    assert(batch(job, tick, "widget"@, 0) =~= Seq::<Thing>::empty());
    if n == 0 {
        assert(effects =~= rest);
        assert(seq![asked].drop_last() =~= none);
        assert(stocked(known, job, tick, none) == known);
        assert(stocked(known, job, tick, lines(effects)) == known);
    } else {
        let made = "produce widget "@ + decimal(n);
        lemma_widgets_are_heard(n);
        lemma_first_line(made, rest);
        assert(effects =~= made + seq!['\n'] + rest);
        assert(lines(effects) == seq![made] + lines(rest));
        let first = seq![made];
        assert(first.drop_last() =~= none);
        assert(stocked(known, job, tick, none) == known);
        assert(stocked(known, job, tick, first) == recorded(
            known,
            batch(job, tick, "widget"@, n),
        ));
        if next.steel < STEEL_REORDER_AT {
            let both = seq![made] + seq![asked];
            assert(both.drop_last() =~= first);
            assert(both.last() == asked);
        } else {
            assert(lines(effects) =~= first);
        }
    }
}

/// Whether one of the lines says that this thing was made.
pub open spec fn is_made_by(
    job: Seq<u8>,
    tick: u64,
    effects: Seq<Seq<char>>,
    t: Thing,
    i: int,
    k: int,
) -> bool {
    let (kind, n) = made_in(effects[i])->0;
    &&& 0 <= i < effects.len()
    &&& made_in(effects[i]) is Some
    &&& 0 <= k < n
    &&& t.0 == kind
    &&& t.1 == sha256_of(production(job, tick, t.0, k as u32))
}

/// The ledger gains by the effects of a tick exactly what they say was made: for
/// each line that says so many of a kind were, that many things of that kind, the
/// first, the second and so on that this job made at this tick.
pub proof fn the_ledger_gains_what_was_made(
    known: Set<Thing>,
    job: Seq<u8>,
    tick: u64,
    effects: Seq<Seq<char>>,
    t: Thing,
)
    ensures
        stocked(known, job, tick, effects).contains(t) <==> known.contains(t) || exists|
            i: int,
            k: int,
        | #[trigger] is_made_by(job, tick, effects, t, i, k),
    decreases effects.len(),
{
    if effects.len() > 0 {
        let rest = effects.drop_last();
        let last = effects.len() - 1;
        the_ledger_gains_what_was_made(known, job, tick, rest, t);
        let before = stocked(known, job, tick, rest);
        assert forall|i: int, k: int| #[trigger] is_made_by(job, tick, rest, t, i, k) implies
            is_made_by(job, tick, effects, t, i, k) by {
            assert(rest[i] == effects[i]);
        }
        assert forall|i: int, k: int| #[trigger] is_made_by(job, tick, effects, t, i, k) && i
            < last implies is_made_by(job, tick, rest, t, i, k) by {
            assert(rest[i] == effects[i]);
        }
        if let Some((kind, n)) = made_in(effects.last()) {
            let made = batch(job, tick, kind, n);
            crate::ledger::what_is_recorded_is_known(before, made, t);
            if made.contains(t) {
                let k = made.index_of(t);
                assert(made[k] == t);
                assert(is_made_by(job, tick, effects, t, last, k));
            }
            assert forall|k: int| #[trigger] is_made_by(job, tick, effects, t, last, k) implies
                made.contains(t) by {
                assert(made[k] == t);
            }
        }
    }
}

/// A line says that so many of a kind were made where its words are the verb, the
/// kind and a number; one was, where there is no number or it is none; and any
/// other line makes nothing.
pub proof fn a_line_says_what_was_made(line: Seq<char>, n: nat)
    requires
        n <= u32::MAX,
    ensures
        words(line).len() >= 3 && words(line)[0] == "produce"@ && words(line)[2] == decimal(n)
            ==> made_in(line) == Some((words(line)[1], n)),
        words(line).len() == 2 && words(line)[0] == "produce"@ ==> made_in(line) == Some(
            (words(line)[1], 1nat),
        ),
        words(line).len() < 2 || words(line)[0] != "produce"@ ==> made_in(line) is None,
        words(line).len() >= 3 && words(line)[0] == "produce"@ && number_up_to(
            words(line)[2],
            10,
            0xffff_ffff,
        ) is None ==> made_in(line) == Some((words(line)[1], 1nat)),
{
    numbers_round_trip(n, u32::MAX as nat);
}

/// Each line that says something was made is reported, in order: how many it
/// says, how many of those the ledger gained by it, and how many of that kind the
/// ledger holds then. No other line is.
pub proof fn every_production_is_reported(
    known: Set<Thing>,
    job: Seq<u8>,
    tick: u64,
    effects: Seq<Seq<char>>,
    line: Seq<char>,
)
    ensures
        ({
            let before = stocked(known, job, tick, effects);
            let after = stocked(known, job, tick, effects.push(line));
            let (told, now) = (
                stock_notes(known, job, tick, effects),
                stock_notes(known, job, tick, effects.push(line)),
            );
            match made_in(line) {
                Some((kind, n)) => now == told.push(
                    produced_note(
                        kind,
                        n,
                        (after.len() - before.len()) as nat,
                        of_kind(after, kind),
                        tick as nat,
                    ),
                ),
                None => now == told && after == before,
            }
        }),
        stock_notes(known, job, tick, Seq::empty()).len() == 0,
{
    assert(effects.push(line).drop_last() =~= effects);
}

} // verus!
