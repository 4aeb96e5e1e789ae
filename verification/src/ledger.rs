//! What exists, and how two machines that both made it still made one of it.
//!
//! A job may briefly be continued by two nodes at once: a node that has not yet
//! heard from a peer genuinely believes it is alone, and no amount of faster
//! messaging fixes that. Being deterministic, both produce identical output.
//!
//! So a thing's identity is derived from what produced it: two nodes making the
//! same widget make the same widget, and recording it twice is recording it
//! once. Nothing here needs coordination, ordering, or agreement. Merging two
//! views is set union, which gives the same answer in any order, however many
//! times it is applied.
use crate::bytes::{
    le_bytes, lemma_byte_rooms, lemma_le_bytes_len, lemma_le_round_trip, put_bytes, put_u32_le,
    put_u64_le,
};
use crate::digest::{sha256, sha256_of};
use crate::order::{
    bytes_before, lemma_bytes_in_a_row, lemma_bytes_one_way, order_bytes, Order,
};
use crate::text::{hexadecimal, pad_text, padded, push_numeral};
use crate::utf8::lemma_same_bytes_same_text;
use vstd::prelude::*;
use vstd::utf8::encode_utf8;

verus! {

/// The identity of one produced thing.
///
/// Derived, never assigned. There is no authority handing out serial numbers,
/// because an authority is a thing that can be absent, and this has to work
/// when every node is talking to a different half of the world.
#[derive(Clone, Copy, PartialEq, Eq, PartialOrd, Ord, Debug, Hash)]
pub struct Serial([u8; 32]);

/// What a serial is the digest of: the code of the job, the tick, the kind of
/// thing and which of its kind it is.
///
/// The length of the kind stands beside it, so that a different split of the
/// same bytes is never the same production.
pub open spec fn production(job: Seq<u8>, tick: u64, kind: Seq<char>, ordinal: u32) -> Seq<u8> {
    let name = encode_utf8(kind);
    encode_utf8("machine-elves/serial/1"@) + job + le_bytes(tick as nat, 8) + le_bytes(
        name.len() % 0x1_0000_0000,
        4,
    ) + name + le_bytes(ordinal as nat, 4)
}

/// One byte in two digits.
pub open spec fn hex_byte(b: u8) -> Seq<char> {
    padded(hexadecimal(b as nat), '0', 2)
}

/// Bytes in digits, two for each.
pub open spec fn hex_text(bytes: Seq<u8>) -> Seq<char>
    decreases bytes.len(),
{
    if bytes.len() == 0 {
        Seq::empty()
    } else {
        hex_text(bytes.drop_last()) + hex_byte(bytes.last())
    }
}

impl View for Serial {
    type V = Seq<u8>;

    closed spec fn view(&self) -> Seq<u8> {
        self.0@
    }
}

impl Serial {
    /// `job` is the digest of the job's own code, so a job is identified by what
    /// it is rather than by a name someone gave it. Two nodes running the same
    /// code at the same tick therefore agree without being told.
    pub fn derive(job: &[u8; 32], tick: u64, kind: &str, ordinal: u32) -> (serial: Serial)
        ensures
            serial@ == sha256_of(production(job@, tick, kind@, ordinal)),
            serial@.len() == 32,
    {
        let mut message: Vec<u8> = Vec::new();
        put_bytes(&mut message, "machine-elves/serial/1".as_bytes());
        put_bytes(&mut message, job);
        put_u64_le(&mut message, tick);
        put_u32_le(&mut message, (kind.as_bytes().len() as u64 % 0x1_0000_0000) as u32);
        put_bytes(&mut message, kind.as_bytes());
        put_u32_le(&mut message, ordinal);
        assert(message@ =~= production(job@, tick, kind@, ordinal));
        Serial(sha256(&message))
    }

    /// The first six bytes, in digits: enough to tell things apart by eye.
    pub fn short(&self) -> (text: String)
        ensures
            text@ == hex_text(self@.take(6)),
            self@.len() == 32,
    {
        let mut text = String::new();
        let mut at: usize = 0;
        assert(self@.take(0) =~= Seq::<u8>::empty());
        while at < 6
            invariant
                at <= 6,
                self@.len() == 32,
                text@ == hex_text(self@.take(at as int)),
            decreases 6 - at,
        {
            let mut digits = String::new();
            push_numeral(&mut digits, self.0[at] as u128, 16);
            text.push_str(&pad_text(&digits, '0', 2));
            proof {
                let longer = self@.take(at + 1);
                assert(longer.drop_last() =~= self@.take(at as int));
                assert(longer.last() == self.0[at as int]);
                assert(Seq::<char>::empty() + hexadecimal(self.0[at as int] as nat)
                    =~= hexadecimal(self.0[at as int] as nat));
            }
            at += 1;
        }
        text
    }
}

/// Different productions are never digests of the same bytes: whatever differs
/// between two of them, be it the job, the tick, the kind or the ordinal,
/// differs in what is hashed.
pub proof fn different_productions_hash_different_bytes(
    job_a: Seq<u8>,
    tick_a: u64,
    kind_a: Seq<char>,
    ordinal_a: u32,
    job_b: Seq<u8>,
    tick_b: u64,
    kind_b: Seq<char>,
    ordinal_b: u32,
)
    requires
        job_a.len() == 32,
        job_b.len() == 32,
        job_a != job_b || tick_a != tick_b || kind_a != kind_b || ordinal_a != ordinal_b,
    ensures
        production(job_a, tick_a, kind_a, ordinal_a) != production(
            job_b,
            tick_b,
            kind_b,
            ordinal_b,
        ),
{
    let a = production(job_a, tick_a, kind_a, ordinal_a);
    let b = production(job_b, tick_b, kind_b, ordinal_b);
    if a == b {
        let head = encode_utf8("machine-elves/serial/1"@).len() as int;
        let (name_a, name_b) = (encode_utf8(kind_a), encode_utf8(kind_b));
        lemma_byte_rooms();
        lemma_le_bytes_len(tick_a as nat, 8);
        lemma_le_bytes_len(tick_b as nat, 8);
        lemma_le_bytes_len(name_a.len() % 0x1_0000_0000, 4);
        lemma_le_bytes_len(name_b.len() % 0x1_0000_0000, 4);
        lemma_le_bytes_len(ordinal_a as nat, 4);
        lemma_le_bytes_len(ordinal_b as nat, 4);
        lemma_le_round_trip(tick_a as nat, 8);
        lemma_le_round_trip(tick_b as nat, 8);
        lemma_le_round_trip(ordinal_a as nat, 4);
        lemma_le_round_trip(ordinal_b as nat, 4);
        assert(a.len() == head + 32 + 8 + 4 + name_a.len() + 4);
        assert(b.len() == head + 32 + 8 + 4 + name_b.len() + 4);
        let (at, end) = (head + 44, head + 44 + name_a.len());
        assert(a.subrange(head, head + 32) =~= job_a);
        assert(b.subrange(head, head + 32) =~= job_b);
        assert(a.subrange(head + 32, head + 40) =~= le_bytes(tick_a as nat, 8));
        assert(b.subrange(head + 32, head + 40) =~= le_bytes(tick_b as nat, 8));
        assert(a.subrange(at, end) =~= name_a);
        assert(b.subrange(at, end) =~= name_b);
        assert(a.subrange(end, end + 4) =~= le_bytes(ordinal_a as nat, 4));
        assert(b.subrange(end, end + 4) =~= le_bytes(ordinal_b as nat, 4));
        lemma_same_bytes_same_text(kind_a, kind_b);
    }
}

/// One thing: what kind it is, and which one it is.
pub type Thing = (Seq<char>, Seq<u8>);

/// The thing that an entry stands for.
pub open spec fn thing(item: (String, Serial)) -> Thing {
    (item.0@, item.1@)
}

/// The things that entries stand for, in their order.
pub open spec fn things(items: Seq<(String, Serial)>) -> Seq<Thing> {
    Seq::new(items.len(), |i: int| thing(items[i]))
}

/// The order in which things are kept: by kind, then by serial.
pub open spec fn thing_before(a: Thing, b: Thing) -> bool {
    bytes_before(encode_utf8(a.0), encode_utf8(b.0)) || (a.0 == b.0 && bytes_before(a.1, b.1))
}

proof fn lemma_things_one_way(a: Thing, b: Thing)
    ensures
        thing_before(a, b) ==> a != b && !thing_before(b, a),
        thing_before(a, b) || a == b || thing_before(b, a),
{
    lemma_bytes_one_way(encode_utf8(a.0), encode_utf8(b.0));
    lemma_bytes_one_way(encode_utf8(b.0), encode_utf8(a.0));
    lemma_bytes_one_way(a.1, b.1);
    lemma_bytes_one_way(b.1, a.1);
    if encode_utf8(a.0) == encode_utf8(b.0) {
        lemma_same_bytes_same_text(a.0, b.0);
    }
}

proof fn lemma_things_in_a_row(a: Thing, b: Thing, c: Thing)
    requires
        thing_before(a, b),
        thing_before(b, c),
    ensures
        thing_before(a, c),
{
    if a.0 == b.0 && b.0 == c.0 {
        lemma_bytes_one_way(encode_utf8(a.0), encode_utf8(a.0));
        lemma_bytes_in_a_row(a.1, b.1, c.1);
    } else if a.0 != b.0 && b.0 != c.0 {
        lemma_bytes_in_a_row(encode_utf8(a.0), encode_utf8(b.0), encode_utf8(c.0));
    }
}

/// Everything known to exist.
///
/// A set rather than a count. Counting would make "add this widget" an
/// operation whose result depends on how many times it happened; membership
/// does not.
#[derive(Debug)]
pub struct Ledger {
    items: Vec<(String, Serial)>,
}

impl View for Ledger {
    type V = Set<Thing>;

    closed spec fn view(&self) -> Set<Thing> {
        things(self.items@).to_set()
    }
}

impl Clone for Ledger {
    fn clone(&self) -> (copy: Ledger)
        ensures
            copy@ == self@,
            self.wf() ==> copy.wf(),
    {
        let mut items: Vec<(String, Serial)> = Vec::new();
        let mut at: usize = 0;
        while at < self.items.len()
            invariant
                at <= self.items@.len(),
                items@.len() == at,
                forall|i: int|
                    0 <= i < at ==> thing(#[trigger] items@[i]) == thing(self.items@[i]),
            decreases self.items@.len() - at,
        {
            items.push((self.items[at].0.clone(), self.items[at].1));
            at += 1;
        }
        let copy = Ledger { items };
        proof {
            assert(things(copy.items@) =~= things(self.items@));
            if self.wf() {
                assert forall|i: int, j: int| 0 <= i < j < copy.items@.len() implies thing_before(
                    #[trigger] thing(copy.items@[i]),
                    #[trigger] thing(copy.items@[j]),
                ) by {
                    assert(thing_before(thing(self.items@[i]), thing(self.items@[j])));
                }
            }
        }
        copy
    }
}

impl Default for Ledger {
    fn default() -> (ledger: Ledger)
        ensures
            ledger.wf(),
            ledger@ == Set::<Thing>::empty(),
    {
        let ledger = Ledger { items: Vec::new() };
        assert(ledger@ =~= Set::<Thing>::empty());
        ledger
    }
}

impl Ledger {
    /// Each thing is kept once, in order.
    pub closed spec fn wf(&self) -> bool {
        forall|i: int, j: int|
            0 <= i < j < self.items@.len() ==> thing_before(
                #[trigger] thing(self.items@[i]),
                #[trigger] thing(self.items@[j]),
            )
    }

    pub fn new() -> (ledger: Ledger)
        ensures
            ledger.wf(),
            ledger@ == Set::<Thing>::empty(),
    {
        Ledger::default()
    }

    /// Where a thing stands, or where it would stand.
    fn find(&self, kind: &str, serial: &Serial) -> (res: (usize, bool))
        requires
            self.wf(),
        ensures
            res.0 <= self.items@.len(),
            res.1 ==> res.0 < self.items@.len() && thing(self.items@[res.0 as int]) == (
                kind@,
                serial@,
            ),
            forall|i: int|
                0 <= i < res.0 ==> thing_before(
                    #[trigger] thing(self.items@[i]),
                    (kind@, serial@),
                ),
            !res.1 ==> forall|i: int|
                res.0 <= i < self.items@.len() ==> thing_before(
                    (kind@, serial@),
                    #[trigger] thing(self.items@[i]),
                ),
    {
        let ghost sought: Thing = (kind@, serial@);
        let mut low: usize = 0;
        let mut high: usize = self.items.len();
        while low < high
            invariant
                self.wf(),
                sought == (kind@, serial@),
                low <= high <= self.items@.len(),
                forall|i: int|
                    0 <= i < low ==> thing_before(#[trigger] thing(self.items@[i]), sought),
                forall|i: int|
                    high <= i < self.items@.len() ==> thing_before(
                        sought,
                        #[trigger] thing(self.items@[i]),
                    ),
            decreases high - low,
        {
            let mid = low + (high - low) / 2;
            let ghost here = thing(self.items@[mid as int]);
            let by_kind = order_bytes(self.items[mid].0.as_str().as_bytes(), kind.as_bytes());
            let by_serial = order_bytes(&self.items[mid].1.0, &serial.0);
            proof {
                if encode_utf8(here.0) == encode_utf8(sought.0) {
                    lemma_same_bytes_same_text(here.0, sought.0);
                }
                lemma_bytes_one_way(encode_utf8(here.0), encode_utf8(sought.0));
            }
            if by_kind == Order::Before || (by_kind == Order::Same && by_serial == Order::Before) {
                proof {
                    assert forall|i: int| 0 <= i < mid + 1 implies thing_before(
                        #[trigger] thing(self.items@[i]),
                        sought,
                    ) by {
                        if i < mid {
                            lemma_things_in_a_row(thing(self.items@[i]), here, sought);
                        }
                    }
                }
                low = mid + 1;
            } else if by_kind == Order::Same && by_serial == Order::Same {
                proof {
                    assert forall|i: int| 0 <= i < mid implies thing_before(
                        #[trigger] thing(self.items@[i]),
                        sought,
                    ) by {
                        assert(thing_before(thing(self.items@[i]), here));
                    }
                }
                return (mid, true);
            } else {
                proof {
                    assert forall|i: int| mid <= i < self.items@.len() implies thing_before(
                        sought,
                        #[trigger] thing(self.items@[i]),
                    ) by {
                        if i > mid {
                            lemma_things_in_a_row(sought, here, thing(self.items@[i]));
                        }
                    }
                }
                high = mid;
            }
        }
        (low, false)
    }

    /// Records a production. Returns whether this was genuinely new.
    ///
    /// A repeat is not an error and not a special case; it simply does not
    /// change anything.
    pub fn record(&mut self, kind: &str, serial: Serial) -> (fresh: bool)
        requires
            old(self).wf(),
        ensures
            final(self).wf(),
            final(self)@ == old(self)@.insert((kind@, serial@)),
            fresh == !old(self)@.contains((kind@, serial@)),
    {
        let ghost sought: Thing = (kind@, serial@);
        let ghost before = self.items@;
        let (at, found) = self.find(kind, &serial);
        if found {
            proof {
                assert(things(before)[at as int] == sought);
                assert(self@.contains(sought));
                assert(self@ =~= self@.insert(sought));
            }
            return false;
        }
        proof {
            if self@.contains(sought) {
                let i = things(before).index_of(sought);
                assert(things(before)[i] == sought);
                assert(thing(before[i]) == sought);
                lemma_things_one_way(sought, sought);
            }
        }
        self.items.insert(at, (kind.to_owned(), serial));
        proof {
            let after = self.items@;
            assert(after =~= before.insert(at as int, after[at as int]));
            assert forall|i: int, j: int| 0 <= i < j < after.len() implies thing_before(
                #[trigger] thing(after[i]),
                #[trigger] thing(after[j]),
            ) by {
                let a = if i < at { i } else { i - 1 };
                let b = if j < at { j } else { j - 1 };
                if i != at {
                    assert(after[i] == before[a]);
                    assert(thing(before[a]) == thing(after[i]));
                }
                if j != at {
                    assert(after[j] == before[b]);
                    assert(thing(before[b]) == thing(after[j]));
                }
            }
            assert forall|t: Thing| self@.contains(t) == #[trigger] old(self)@.insert(sought).contains(t) by {
                if things(after).contains(t) {
                    let i = things(after).index_of(t);
                    if i != at {
                        let a = if i < at { i } else { i - 1 };
                        assert(things(before)[a] == t);
                    }
                }
                if things(before).contains(t) {
                    let i = things(before).index_of(t);
                    let a = if i < at { i } else { i + 1 };
                    assert(after[a] == before[i]);
                    assert(things(after)[a] == t);
                }
                assert(things(after)[at as int] == sought);
            }
            assert(self@ =~= old(self)@.insert(sought));
        }
        true
    }

    /// Absorbs another node's view of the world.
    ///
    /// Union is commutative, associative, and idempotent, so nodes converge
    /// whatever order they hear things in and however often, which is why no
    /// node ever has to ask another what it has already seen.
    pub fn merge(&mut self, other: &Ledger)
        requires
            old(self).wf(),
        ensures
            final(self).wf(),
            final(self)@ == old(self)@.union(other@),
    {
        let mut at: usize = 0;
        let ghost theirs = things(other.items@);
        assert(self@ =~= old(self)@.union(theirs.take(0).to_set()));
        while at < other.items.len()
            invariant
                self.wf(),
                at <= other.items@.len(),
                theirs == things(other.items@),
                self@ == old(self)@.union(theirs.take(at as int).to_set()),
            decreases other.items@.len() - at,
        {
            self.record(other.items[at].0.as_str(), other.items[at].1);
            proof {
                let (shorter, longer) = (theirs.take(at as int), theirs.take(at + 1));
                assert(longer =~= shorter.push(theirs[at as int]));
                assert forall|t: Thing| #[trigger]
                    longer.to_set().contains(t) == shorter.to_set().insert(
                    theirs[at as int],
                ).contains(t) by {
                    if longer.contains(t) {
                        let i = longer.index_of(t);
                        if i < at {
                            assert(shorter[i] == t);
                        }
                    }
                    if shorter.contains(t) {
                        let i = shorter.index_of(t);
                        assert(longer[i] == t);
                    }
                    assert(longer[at as int] == theirs[at as int]);
                }
                assert(longer.to_set() =~= shorter.to_set().insert(theirs[at as int]));
                assert(self@ =~= old(self)@.union(longer.to_set()));
            }
            at += 1;
        }
        assert(theirs.take(at as int) =~= theirs);
    }

    /// How many things of this kind exist.
    pub fn count(&self, kind: &str) -> (n: usize)
        requires
            self.wf(),
        ensures
            n == of_kind(self@, kind@),
    {
        let mut n: usize = 0;
        let mut at: usize = 0;
        let ghost mine = things(self.items@);
        let ghost ours = |t: Thing| t.0 == kind@;
        assert(mine.take(0).to_set().filter(ours) =~= Set::<Thing>::empty());
        while at < self.items.len()
            invariant
                self.wf(),
                n <= at <= self.items@.len(),
                mine == things(self.items@),
                ours == (|t: Thing| t.0 == kind@),
                n == mine.take(at as int).to_set().filter(ours).len(),
                mine.take(at as int).to_set().filter(ours).finite(),
            decreases self.items@.len() - at,
        {
            let same = order_bytes(self.items[at].0.as_str().as_bytes(), kind.as_bytes())
                == Order::Same;
            proof {
                let (shorter, longer) = (mine.take(at as int), mine.take(at + 1));
                let this = mine[at as int];
                if encode_utf8(this.0) == encode_utf8(kind@) {
                    lemma_same_bytes_same_text(this.0, kind@);
                }
                assert(longer =~= shorter.push(this));
                if shorter.contains(this) {
                    let i = shorter.index_of(this);
                    assert(thing(self.items@[i]) == this);
                    assert(thing_before(thing(self.items@[i]), thing(self.items@[at as int])));
                    lemma_things_one_way(this, this);
                }
                assert forall|t: Thing| #[trigger] longer.to_set().contains(t) == shorter.to_set().insert(this).contains(t) by {
                    if longer.contains(t) {
                        let i = longer.index_of(t);
                        if i < at {
                            assert(shorter[i] == t);
                        }
                    }
                    if shorter.contains(t) {
                        let i = shorter.index_of(t);
                        assert(longer[i] == t);
                    }
                    assert(longer[at as int] == this);
                }
                if same {
                    assert(longer.to_set().filter(ours) =~= shorter.to_set().filter(ours).insert(
                        this,
                    ));
                } else {
                    assert(longer.to_set().filter(ours) =~= shorter.to_set().filter(ours));
                }
            }
            if same {
                n += 1;
            }
            at += 1;
        }
        assert(mine.take(at as int) =~= mine);
        n
    }

    /// How many things exist.
    pub fn len(&self) -> (n: usize)
        requires
            self.wf(),
        ensures
            n == self@.len(),
            self@.finite(),
    {
        proof {
            self.lemma_kept_once();
        }
        self.items.len()
    }

    /// Whether nothing exists yet.
    pub fn is_empty(&self) -> (empty: bool)
        requires
            self.wf(),
        ensures
            empty == (self@ == Set::<Thing>::empty()),
    {
        proof {
            if self.items@.len() > 0 {
                assert(things(self.items@)[0] == thing(self.items@[0]));
                assert(self@.contains(thing(self.items@[0])));
            } else {
                assert(self@ =~= Set::<Thing>::empty());
            }
        }
        self.items.len() == 0
    }

    /// Only so many things are ever kept.
    pub proof fn lemma_finite(&self)
        ensures
            self@.finite(),
    {
        vstd::seq_lib::seq_to_set_is_finite(things(self.items@));
    }

    proof fn lemma_kept_once(&self)
        requires
            self.wf(),
        ensures
            self@.len() == self.items@.len(),
            self@.finite(),
    {
        let mine = things(self.items@);
        assert forall|i: int, j: int| 0 <= i < mine.len() && 0 <= j < mine.len() && i != j implies mine[i] != mine[j] by {
            if i < j {
                lemma_things_one_way(thing(self.items@[i]), thing(self.items@[j]));
            } else {
                lemma_things_one_way(thing(self.items@[j]), thing(self.items@[i]));
            }
        }
        mine.unique_seq_to_set();
    }
}

/// The things of this kind that are known.
pub open spec fn things_of(known: Set<Thing>, kind: Seq<char>) -> Set<Thing> {
    known.filter(|t: Thing| t.0 == kind)
}

/// How many things of this kind are known.
pub open spec fn of_kind(known: Set<Thing>, kind: Seq<char>) -> nat {
    things_of(known, kind).len()
}

/// The things of these kinds that are known.
spec fn things_among(known: Set<Thing>, kinds: Seq<Seq<char>>) -> Set<Thing> {
    known.filter(|t: Thing| kinds.contains(t.0))
}

/// The serials that are known under this kind.
pub open spec fn serials_of(known: Set<Thing>, kind: Seq<char>) -> Set<Seq<u8>> {
    Set::new(|serial: Seq<u8>| known.contains((kind, serial)))
}

/// The counts of these kinds, added up.
pub open spec fn counted(known: Set<Thing>, kinds: Seq<Seq<char>>) -> nat
    decreases kinds.len(),
{
    if kinds.len() == 0 {
        0
    } else {
        counted(known, kinds.drop_last()) + of_kind(known, kinds.last())
    }
}

proof fn lemma_counted(known: Set<Thing>, kinds: Seq<Seq<char>>)
    requires
        known.finite(),
        kinds.no_duplicates(),
    ensures
        counted(known, kinds) == things_among(known, kinds).len(),
    decreases kinds.len(),
{
    let all = things_among(known, kinds);
    if kinds.len() == 0 {
        assert(all =~= Set::<Thing>::empty());
    } else {
        let (rest, kind) = (kinds.drop_last(), kinds.last());
        lemma_counted(known, rest);
        let earlier = things_among(known, rest);
        let these = things_of(known, kind);
        known.lemma_len_filter(|t: Thing| rest.contains(t.0));
        known.lemma_len_filter(|t: Thing| t.0 == kind);
        assert(!rest.contains(kind)) by {
            if rest.contains(kind) {
                let i = rest.index_of(kind);
                assert(kinds[i] == kinds[kinds.len() - 1]);
            }
        }
        assert forall|t: Thing| #[trigger] all.contains(t) == (earlier + these).contains(t) by {
            if kinds.contains(t.0) {
                let i = kinds.index_of(t.0);
                if i < rest.len() {
                    assert(rest[i] == t.0);
                }
            }
            if rest.contains(t.0) {
                let i = rest.index_of(t.0);
                assert(kinds[i] == t.0);
            }
            assert(kinds[kinds.len() - 1] == kind);
        }
        assert(all =~= earlier + these);
        assert(earlier.disjoint(these));
        vstd::set_lib::lemma_set_disjoint_lens(earlier, these);
    }
}

/// The counts over all kinds add up to how many things there are, each kind
/// taken once.
pub proof fn counts_add_up(known: Set<Thing>, kinds: Seq<Seq<char>>)
    requires
        known.finite(),
        kinds.no_duplicates(),
        forall|t: Thing| #[trigger] known.contains(t) ==> kinds.contains(t.0),
    ensures
        counted(known, kinds) == known.len(),
{
    lemma_counted(known, kinds);
    assert(things_among(known, kinds) =~= known);
}

/// A kind counts the different serials that are known under exactly that kind:
/// a serial under two kinds counts once under each, and a kind that nothing is
/// known under counts nothing.
pub proof fn a_kind_counts_its_serials(known: Set<Thing>, kind: Seq<char>)
    requires
        known.finite(),
    ensures
        serials_of(known, kind).finite(),
        of_kind(known, kind) == serials_of(known, kind).len(),
        (forall|t: Thing| #[trigger] known.contains(t) ==> t.0 != kind) ==> of_kind(known, kind)
            == 0,
{
    let these = things_of(known, kind);
    let serials = serials_of(known, kind);
    let serial_of = |t: Thing| t.1;
    known.lemma_len_filter(|t: Thing| t.0 == kind);
    assert forall|s: Seq<u8>| #[trigger] these.map(serial_of).contains(s) == serials.contains(s) by {
        if serials.contains(s) {
            let t: Thing = (kind, s);
            assert(these.contains(t) && serial_of(t) == s);
        }
    }
    assert(these.map(serial_of) =~= serials);
    vstd::set_lib::lemma_map_size(these, serials, serial_of);
    if forall|t: Thing| #[trigger] known.contains(t) ==> t.0 != kind {
        assert(these =~= Set::<Thing>::empty());
    }
}

/// However often and in whatever order things were recorded, a kind counts the
/// different serials that were recorded under it.
pub proof fn what_was_recorded_is_counted(made: Seq<Thing>, kind: Seq<char>)
    ensures
        of_kind(recorded(Set::empty(), made), kind) == Set::new(
            |serial: Seq<u8>| made.contains((kind, serial)),
        ).len(),
        recorded(Set::empty(), made).finite(),
{
    let known = recorded(Set::empty(), made);
    lemma_recorded_is_union(Set::empty(), made);
    assert(known =~= made.to_set());
    vstd::seq_lib::seq_to_set_is_finite(made);
    a_kind_counts_its_serials(known, kind);
    assert(serials_of(known, kind) =~= Set::new(|serial: Seq<u8>| made.contains((kind, serial))));
}

/// What is known to exist once these have been recorded, one after the other.
pub open spec fn recorded(known: Set<Thing>, made: Seq<Thing>) -> Set<Thing>
    decreases made.len(),
{
    if made.len() == 0 {
        known
    } else {
        recorded(known, made.drop_last()).insert(made.last())
    }
}

proof fn lemma_recorded_is_union(known: Set<Thing>, made: Seq<Thing>)
    ensures
        recorded(known, made) == known.union(made.to_set()),
    decreases made.len(),
{
    if made.len() == 0 {
        assert(recorded(known, made) =~= known.union(made.to_set()));
    } else {
        let rest = made.drop_last();
        lemma_recorded_is_union(known, rest);
        assert forall|t: Thing| #[trigger] made.to_set().contains(t) == rest.to_set().insert(
            made.last(),
        ).contains(t) by {
            if made.contains(t) {
                let i = made.index_of(t);
                if i < rest.len() {
                    assert(rest[i] == t);
                }
            }
            if rest.contains(t) {
                let i = rest.index_of(t);
                assert(made[i] == t);
            }
            assert(made[made.len() - 1] == made.last());
        }
        assert(recorded(known, made) =~= known.union(made.to_set()));
    }
}

/// What is known once things have been recorded is what was known and what was
/// recorded, and nothing else.
pub proof fn what_is_recorded_is_known(known: Set<Thing>, made: Seq<Thing>, t: Thing)
    ensures
        recorded(known, made).contains(t) == (known.contains(t) || made.contains(t)),
{
    lemma_recorded_is_union(known, made);
    assert(made.to_set().contains(t) == made.contains(t));
}

/// Recording the same thing twice records it once.
pub proof fn recording_twice_records_once(known: Set<Thing>, t: Thing)
    ensures
        recorded(known, seq![t, t]) == recorded(known, seq![t]),
        recorded(known, seq![t]) == known.insert(t),
{
    assert(seq![t].drop_last() =~= Seq::<Thing>::empty());
    assert(seq![t, t].drop_last() =~= seq![t]);
    reveal_with_fuel(recorded, 3);
    assert(recorded(known, seq![t]) == known.insert(t));
    assert(known.insert(t).insert(t) =~= known.insert(t));
}

/// The order in which things are recorded, and how often, makes no difference:
/// what is known is what was there and what was made.
pub proof fn recording_is_order_independent(known: Set<Thing>, a: Seq<Thing>, b: Seq<Thing>)
    requires
        a.to_set() == b.to_set(),
    ensures
        recorded(known, a) == recorded(known, b),
{
    lemma_recorded_is_union(known, a);
    lemma_recorded_is_union(known, b);
}

/// Merging gives the same answer in any order, in any grouping, and however
/// often it is done.
pub proof fn merging_is_order_independent_and_repeatable(
    a: Set<Thing>,
    b: Set<Thing>,
    c: Set<Thing>,
)
    ensures
        a.union(b) == b.union(a),
        a.union(b).union(c) == a.union(b.union(c)),
        a.union(a) == a,
        a.union(b).union(b) == a.union(b),
{
    assert(a.union(b) =~= b.union(a));
    assert(a.union(b).union(c) =~= a.union(b.union(c)));
    assert(a.union(a) =~= a);
    assert(a.union(b).union(b) =~= a.union(b));
}

/// Two nodes that did the same work, one of them further than the other, have
/// one inventory between them: the merge holds what the further one made, and
/// nothing twice.
pub proof fn two_nodes_doing_the_same_work_make_one_inventory(
    known: Set<Thing>,
    shared: Seq<Thing>,
    ahead: Seq<Thing>,
)
    ensures
        recorded(known, shared).union(recorded(known, shared + ahead)) == recorded(
            known,
            shared + ahead,
        ),
{
    lemma_recorded_is_union(known, shared);
    lemma_recorded_is_union(known, shared + ahead);
    assert forall|t: Thing| #[trigger] shared.to_set().contains(t) implies (shared
        + ahead).to_set().contains(t) by {
        let i = shared.index_of(t);
        assert((shared + ahead)[i] == t);
    }
    assert(recorded(known, shared).union(recorded(known, shared + ahead)) =~= recorded(
        known,
        shared + ahead,
    ));
}

/// Every byte of a serial is shown in two digits, from which it can be read.
pub proof fn serials_are_shown_in_two_digits_a_byte(bytes: Seq<u8>, b: u8)
    ensures
        hex_byte(b).len() == 2,
        crate::text::number_up_to(hex_byte(b), 16, 0xff) == Some(b as nat),
        hex_text(bytes.push(b)) == hex_text(bytes) + hex_byte(b),
        hex_text(Seq::empty()).len() == 0,
{
    assert(bytes.push(b).drop_last() =~= bytes);
    crate::text::numbers_round_trip_in_every_base(b as nat, 16, 0xff);
    let text = hexadecimal(b as nat);
    reveal_with_fuel(crate::text::numeral, 3);
    if b < 16 {
        assert(hex_byte(b) =~= seq!['0'] + text);
        crate::text::digits_are_figures_and_letters('0', text, 16);
        assert(crate::text::unsigned_digits(text) == text);
        assert(crate::text::unsigned_digits(hex_byte(b)) == hex_byte(b));
        assert forall|i: int| 0 <= i < 2 implies crate::text::is_digit(
            #[trigger] hex_byte(b)[i],
            16,
        ) by {
            if i == 1 {
                assert(hex_byte(b)[1] == text[0]);
            }
        }
    } else {
        assert(text.len() == 2);
    }
}

} // verus!
