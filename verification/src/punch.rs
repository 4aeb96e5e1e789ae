//! Reaching another machine directly, with no server in the middle.
//!
//! Both sides sit behind address translation, so neither can be dialled. The
//! only thing that opens a path is both of them sending outward at once: each
//! outbound packet creates a mapping, and with luck the other side's packet
//! arrives while that mapping is open.
//!
//! What this measures is filtering, not mapping: whether a router will admit a
//! packet from someone it has not been introduced to. Only that decides whether
//! two ordinary home connections can meet.
use crate::addr::{place_text, Endpoint, Place};
use crate::notice::Timing;

use vstd::prelude::*;
use vstd::utf8::encode_utf8;

verus! {

/// How often each side sends while trying to meet, in nanoseconds.
pub const PUNCH_EVERY: u128 = 250_000_000;

/// How often the mapping is refreshed while waiting for the other address, in
/// nanoseconds.
///
/// Comfortably under the shortest measured idle timeout, so that a mapping
/// learned now is still the mapping in use when the peer's address finally
/// arrives, which may be minutes later, since a person is copying it by hand.
pub const REFRESH_EVERY: u128 = 20_000_000_000;

/// The words of a first packet.
pub open spec fn hello() -> Seq<u8> {
    encode_utf8("MACHINE-ELVES-PUNCH"@)
}

/// The words of an answer.
pub open spec fn pong() -> Seq<u8> {
    encode_utf8("MACHINE-ELVES-PONG"@)
}

/// The first packet.
pub fn punch_hello() -> (bytes: &'static [u8])
    ensures
        bytes@ == hello(),
{
    "MACHINE-ELVES-PUNCH".as_bytes()
}

/// The answer to a first packet.
pub fn punch_reply() -> (bytes: &'static [u8])
    ensures
        bytes@ == pong(),
{
    "MACHINE-ELVES-PONG".as_bytes()
}

/// Whether `data` starts with `head`.
pub open spec fn starts(data: Seq<u8>, head: Seq<u8>) -> bool {
    data.len() >= head.len() && data.take(head.len() as int) == head
}

fn starts_with(data: &[u8], head: &[u8]) -> (yes: bool)
    ensures
        yes == starts(data@, head@),
{
    if data.len() < head.len() {
        return false;
    }
    assert(data@.subrange(0, head@.len() as int) =~= data@.take(head@.len() as int));
    crate::bytes::same_bytes(&data[0..head.len()], head)
}

/// Something to do about a packet.
pub enum Move {
    /// Say that the other side's packet arrived, so many nanoseconds after the
    /// start.
    Arrived(u128),
    /// Answer it.
    Reply,
    /// Say that the other side answered.
    Answered(u128),
}

/// Two machines trying to meet. Instants are in nanoseconds since the start.
#[derive(Clone, Copy, PartialEq, Eq, Structural, Debug)]
pub struct Punch {
    /// When to stop.
    pub deadline: u128,
    pub last_sent: Option<u128>,
    pub heard_from_them: Option<u128>,
    pub they_heard_us: Option<u128>,
}

/// How two machines met, if they did.
#[derive(Clone, Copy, PartialEq, Eq, Structural, Debug)]
pub enum Contact {
    TwoWay,
    InboundOnly,
    OutboundOnly,
    NoContact,
}

impl Punch {
    /// Whether there is any point in going on.
    pub open spec fn goes_on(self, now: u128) -> bool {
        now < self.deadline && !(self.heard_from_them is Some && self.they_heard_us is Some)
    }

    /// Whether it is time to send: nothing was sent yet, or long enough ago, or
    /// the clock went back.
    pub open spec fn due(self, now: u128) -> bool {
        match self.last_sent {
            Some(at) => now < at || now - at >= PUNCH_EVERY,
            None => true,
        }
    }

    /// A packet came in, from the peer's address or not. The port may differ from
    /// the one that was given: the other side's router can assign a different one
    /// than it reported. The address is what identifies them.
    pub open spec fn met_by(self, from_peer: bool, data: Seq<u8>, now: u128) -> (Punch, Seq<Move>) {
        if !from_peer {
            (self, Seq::empty())
        } else if starts(data, hello()) {
            if self.heard_from_them is None {
                (
                    Punch { heard_from_them: Some(now), ..self },
                    seq![Move::Arrived(now), Move::Reply],
                )
            } else {
                (self, seq![Move::Reply])
            }
        } else if starts(data, pong()) && self.they_heard_us is None {
            (Punch { they_heard_us: Some(now), ..self }, seq![Move::Answered(now)])
        } else {
            (self, Seq::empty())
        }
    }

    /// How the two machines met so far.
    pub open spec fn contact(self) -> Contact {
        match (self.heard_from_them, self.they_heard_us) {
            (Some(_), Some(_)) => Contact::TwoWay,
            (Some(_), None) => Contact::InboundOnly,
            (None, Some(_)) => Contact::OutboundOnly,
            (None, None) => Contact::NoContact,
        }
    }

    /// Nothing sent and nothing heard, and so many seconds to go.
    pub fn new(seconds: u64) -> (punch: Punch)
        ensures
            punch == (Punch {
                deadline: (seconds * 1_000_000_000) as u128,
                last_sent: None,
                heard_from_them: None,
                they_heard_us: None,
            }),
    {
        Punch {
            deadline: seconds as u128 * 1_000_000_000,
            last_sent: None,
            heard_from_them: None,
            they_heard_us: None,
        }
    }

    /// Whether there is any point in going on.
    pub fn continues(&self, now: u128) -> (yes: bool)
        ensures
            yes == self.goes_on(now),
    {
        now < self.deadline && !(self.heard_from_them.is_some() && self.they_heard_us.is_some())
    }

    /// Whether it is time to send; if so, this is when.
    pub fn send_if_due(&mut self, now: u128) -> (yes: bool)
        ensures
            yes == old(self).due(now),
            *final(self) == if yes {
                Punch { last_sent: Some(now), ..*old(self) }
            } else {
                *old(self)
            },
    {
        let yes = match self.last_sent {
            Some(at) => now < at || now - at >= PUNCH_EVERY,
            None => true,
        };
        if yes {
            self.last_sent = Some(now);
        }
        yes
    }

    /// A packet came in.
    pub fn on_packet(&mut self, from_peer: bool, data: &[u8], now: u128) -> (moves: Vec<Move>)
        ensures
            (*final(self), moves@) == old(self).met_by(from_peer, data@, now),
    {
        let mut moves: Vec<Move> = Vec::new();
        assert(moves@ =~= Seq::<Move>::empty());
        if !from_peer {
            return moves;
        }
        if starts_with(data, punch_hello()) {
            if self.heard_from_them.is_none() {
                moves.push(Move::Arrived(now));
                self.heard_from_them = Some(now);
            }
            moves.push(Move::Reply);
        } else if starts_with(data, punch_reply()) && self.they_heard_us.is_none() {
            self.they_heard_us = Some(now);
            moves.push(Move::Answered(now));
        }
        assert(moves@ =~= old(self).met_by(from_peer, data@, now).1);
        moves
    }

    /// How the two machines met.
    pub fn verdict(&self) -> (contact: Contact)
        ensures
            contact == self.contact(),
    {
        match (self.heard_from_them, self.they_heard_us) {
            (Some(_), Some(_)) => Contact::TwoWay,
            (Some(_), None) => Contact::InboundOnly,
            (None, Some(_)) => Contact::OutboundOnly,
            (None, None) => Contact::NoContact,
        }
    }
}

impl Contact {
    /// What it is called.
    pub open spec fn tag(self) -> Seq<char> {
        match self {
            Contact::TwoWay => "two-way"@,
            Contact::InboundOnly => "inbound-only"@,
            Contact::OutboundOnly => "outbound-only"@,
            Contact::NoContact => "no-contact"@,
        }
    }

    /// What it means, line by line.
    pub open spec fn meaning(self) -> Seq<Seq<char>> {
        match self {
            Contact::TwoWay => seq![
                "  BOTH DIRECTIONS WORK. Two machines behind address translation reached"@,
                "  each other with nothing in the middle. This is the result Phase 0"@,
                "  was built to find."@,
            ],
            Contact::InboundOnly => seq![
                "  Their packets reach us; ours do not reach them. Their router is the"@,
                "  stricter of the two — a path exists, but only one way, so a peer"@,
                "  connection would need help from somewhere."@,
            ],
            Contact::OutboundOnly => seq![
                "  Ours reach them; theirs do not reach us. This router is the stricter"@,
                "  one. A path exists, but only one way."@,
            ],
            Contact::NoContact => seq![
                "  Nothing got through in either direction."@,
                Seq::empty(),
                "  Either the two sides did not overlap in time, or at least one router"@,
                "  refuses packets from anyone it was not introduced to. Try again with"@,
                "  both sides started together before concluding the second."@,
            ],
        }
    }

    /// What it is called.
    pub fn tag_text(&self) -> (text: &'static str)
        ensures
            text@ == self.tag(),
    {
        match self {
            Contact::TwoWay => "two-way",
            Contact::InboundOnly => "inbound-only",
            Contact::OutboundOnly => "outbound-only",
            Contact::NoContact => "no-contact",
        }
    }

    /// What it means, line by line.
    pub fn lines(&self) -> (lines: Vec<&'static str>)
        ensures
            Seq::new(lines@.len(), |i: int| lines@[i]@) == self.meaning(),
    {
        let lines: Vec<&'static str> = match self {
            Contact::TwoWay => vec![
                "  BOTH DIRECTIONS WORK. Two machines behind address translation reached",
                "  each other with nothing in the middle. This is the result Phase 0",
                "  was built to find.",
            ],
            Contact::InboundOnly => vec![
                "  Their packets reach us; ours do not reach them. Their router is the",
                "  stricter of the two — a path exists, but only one way, so a peer",
                "  connection would need help from somewhere.",
            ],
            Contact::OutboundOnly => vec![
                "  Ours reach them; theirs do not reach us. This router is the stricter",
                "  one. A path exists, but only one way.",
            ],
            Contact::NoContact => vec![
                "  Nothing got through in either direction.",
                "",
                "  Either the two sides did not overlap in time, or at least one router",
                "  refuses packets from anyone it was not introduced to. Try again with",
                "  both sides started together before concluding the second.",
            ],
        };
        proof {
            reveal_strlit("");
            assert(""@ =~= Seq::<char>::empty());
        }
        assert(Seq::new(lines@.len(), |i: int| lines@[i]@) =~= self.meaning());
        lines
    }
}

/// The closing line.
pub open spec fn punch_line(me: Place, peer: Place, contact: Contact) -> Seq<char> {
    "PUNCH v0.1 | me="@ + place_text(me) + " | peer="@ + place_text(peer) + " | result="@
        + contact.tag()
}

/// The closing line.
pub fn punch_summary(me: &Endpoint, peer: &Endpoint, contact: Contact) -> (text: String)
    ensures
        text@ == punch_line(me@, peer@, contact),
{
    let mut text = "PUNCH v0.1 | me=".to_owned();
    text.push_str(&me.text());
    text.push_str(" | peer=");
    text.push_str(&peer.text());
    text.push_str(" | result=");
    text.push_str(contact.tag_text());
    text
}

/// A line with a span of time in it.
pub struct Line {
    pub before: String,
    pub timing: Timing,
    pub after: String,
}

/// The line for a packet that arrived from the other side.
pub fn arrived_line(from: &Endpoint, at: u128) -> (line: Line)
    ensures
        line.before@ == "  <- their packet arrived from "@ + place_text(from@) + " after "@,
        line.timing == Timing::Seconds(at),
        line.after@ == "s"@,
{
    let mut before = "  <- their packet arrived from ".to_owned();
    before.push_str(&from.text());
    before.push_str(" after ");
    Line { before, timing: Timing::Seconds(at), after: "s".to_owned() }
}

/// The line for an answer from the other side.
pub fn answered_line(at: u128) -> (line: Line)
    ensures
        line.before@ == "  -> they answered ours after "@,
        line.timing == Timing::Seconds(at),
        line.after@ == "s"@,
{
    Line {
        before: "  -> they answered ours after ".to_owned(),
        timing: Timing::Seconds(at),
        after: "s".to_owned(),
    }
}

/// Whether the mapping is to be refreshed: it was, so long ago.
pub fn refresh_due(since: u128) -> (yes: bool)
    ensures
        yes == (since >= REFRESH_EVERY),
{
    since >= REFRESH_EVERY
}

/// The mapping was refreshed. A changed address means the wait outlasted the
/// mapping, and whatever was sent to the other side is now wrong: gives the line
/// to show then.
pub fn on_refresh(mapped: &Endpoint, now: &Endpoint) -> (line: Option<String>)
    ensures
        match line {
            Some(line) => {
                &&& mapped@ != now@
                &&& line@ == "  !! the address changed to "@ + place_text(now@)
                    + " — send them this one instead"@
            },
            None => mapped@ == now@,
        },
{
    if mapped.ip.same(&now.ip) && mapped.port == now.port && mapped.scope == now.scope {
        return None;
    }
    let mut line = "  !! the address changed to ".to_owned();
    line.push_str(&now.text());
    line.push_str(" — send them this one instead");
    Some(line)
}

/// What was heard stays heard: a packet never takes a direction away again.
pub proof fn contact_is_never_lost(p: Punch, from_peer: bool, data: Seq<u8>, now: u128)
    ensures
        ({
            let next = p.met_by(from_peer, data, now).0;
            &&& p.heard_from_them is Some ==> next.heard_from_them == p.heard_from_them
            &&& p.they_heard_us is Some ==> next.they_heard_us == p.they_heard_us
            &&& next.deadline == p.deadline
        }),
{
}

/// Every first packet from the other side is answered, and nothing else is.
pub proof fn every_hello_is_answered(p: Punch, from_peer: bool, data: Seq<u8>, now: u128)
    ensures
        p.met_by(from_peer, data, now).1.contains(Move::Reply) <==> from_peer && starts(
            data,
            hello(),
        ),
{
    let moves = p.met_by(from_peer, data, now).1;
    if from_peer && starts(data, hello()) {
        assert(moves[moves.len() - 1] == Move::Reply);
    }
}

/// What a packet means goes by who sent it and what it begins with. From anybody
/// but the other side it means nothing. Their first words, however often they
/// come, are answered, and the first time they are reported with the time, from
/// when on their packets are known to arrive. Their answer is reported once, from
/// when on ours are known to. Anything else means nothing.
pub proof fn a_packet_means_what_it_begins_with(p: Punch, data: Seq<u8>, rest: Seq<u8>, now: u128)
    ensures
        p.met_by(false, data, now) == (p, Seq::<Move>::empty()),
        ({
            let (next, moves) = p.met_by(true, encode_utf8("MACHINE-ELVES-PUNCH"@) + rest, now);
            &&& next.they_heard_us == p.they_heard_us
            &&& next.last_sent == p.last_sent && next.deadline == p.deadline
            &&& p.heard_from_them is None ==> {
                &&& next.heard_from_them == Some(now)
                &&& moves == seq![Move::Arrived(now), Move::Reply]
            }
            &&& p.heard_from_them is Some ==> {
                &&& next.heard_from_them == p.heard_from_them
                &&& moves == seq![Move::Reply]
            }
        }),
        ({
            let (next, moves) = p.met_by(true, encode_utf8("MACHINE-ELVES-PONG"@) + rest, now);
            &&& next.heard_from_them == p.heard_from_them
            &&& next.last_sent == p.last_sent && next.deadline == p.deadline
            &&& p.they_heard_us is None ==> {
                &&& next.they_heard_us == Some(now)
                &&& moves == seq![Move::Answered(now)]
            }
            &&& p.they_heard_us is Some ==> {
                &&& next.they_heard_us == p.they_heard_us
                &&& moves.len() == 0
            }
        }),
        !encode_utf8("MACHINE-ELVES-PUNCH"@).is_prefix_of(data) && !encode_utf8(
            "MACHINE-ELVES-PONG"@,
        ).is_prefix_of(data) ==> p.met_by(true, data, now) == (p, Seq::<Move>::empty()),
{
    let (a, b) = (encode_utf8("MACHINE-ELVES-PUNCH"@), encode_utf8("MACHINE-ELVES-PONG"@));
    let (x, y) = (a + rest, b + rest);
    assert(x.take(a.len() as int) =~= a);
    assert(y.take(b.len() as int) =~= b);
    lemma_words_differ(y);
    assert(starts(data, a) ==> a.is_prefix_of(data)) by {
        assert(data.take(a.len() as int) =~= data.subrange(0, a.len() as int));
    }
    assert(starts(data, b) ==> b.is_prefix_of(data)) by {
        assert(data.take(b.len() as int) =~= data.subrange(0, b.len() as int));
    }
}

/// What begins with the words of an answer does not begin with the first words.
proof fn lemma_words_differ(data: Seq<u8>)
    requires
        starts(data, pong()),
    ensures
        !starts(data, hello()),
{
    reveal_strlit("MACHINE-ELVES-PUNCH");
    reveal_strlit("MACHINE-ELVES-PONG");
    let (x, y) = ("MACHINE-ELVES-PUNCH"@, "MACHINE-ELVES-PONG"@);
    assert(vstd::utf8::is_ascii_chars(x));
    assert(vstd::utf8::is_ascii_chars(y));
    vstd::utf8::is_ascii_chars_encode_utf8(x);
    vstd::utf8::is_ascii_chars_encode_utf8(y);
    assert(x[15] == 'U' && y[15] == 'O');
    if starts(data, hello()) {
        assert(data.take(hello().len() as int)[15] == data[15]);
        assert(data.take(pong().len() as int)[15] == data[15]);
    }
}

/// Two machines that hear each other's first words, and then each other's
/// answers, have met: both say that both directions work, and neither goes on.
pub proof fn two_machines_meet(p: Punch, q: Punch, t: u128, u: u128)
    requires
        p.contact() is NoContact,
        q.contact() is NoContact,
    ensures
        ({
            let hail = encode_utf8("MACHINE-ELVES-PUNCH"@);
            let echo = encode_utf8("MACHINE-ELVES-PONG"@);
            let (a, told_a) = p.met_by(true, hail, t);
            let (b, told_b) = q.met_by(true, hail, t);
            &&& told_a.contains(Move::Reply)
            &&& told_b.contains(Move::Reply)
            &&& a.contact() is InboundOnly
            &&& b.contact() is InboundOnly
            &&& a.met_by(true, echo, u).0.contact() is TwoWay
            &&& b.met_by(true, echo, u).0.contact() is TwoWay
            &&& p.met_by(true, echo, u).0.contact() is OutboundOnly
            &&& !a.met_by(true, echo, u).0.goes_on(u)
        }),
{
    let hail = encode_utf8("MACHINE-ELVES-PUNCH"@);
    let echo = encode_utf8("MACHINE-ELVES-PONG"@);
    let none = Seq::<u8>::empty();
    assert(hail + none =~= hail);
    assert(echo + none =~= echo);
    a_packet_means_what_it_begins_with(p, none, none, t);
    a_packet_means_what_it_begins_with(q, none, none, t);
    let (a, told_a) = p.met_by(true, hail, t);
    let (b, told_b) = q.met_by(true, hail, t);
    a_packet_means_what_it_begins_with(a, none, none, u);
    a_packet_means_what_it_begins_with(b, none, none, u);
    a_packet_means_what_it_begins_with(p, none, none, u);
    assert(told_a[1] == Move::Reply);
    assert(told_b[1] == Move::Reply);
}

/// How the two met is which directions are known to work, no more and no less.
pub proof fn contact_is_what_was_heard(p: Punch)
    ensures
        p.contact().tag() == if p.heard_from_them is Some {
            if p.they_heard_us is Some { "two-way"@ } else { "inbound-only"@ }
        } else {
            if p.they_heard_us is Some { "outbound-only"@ } else { "no-contact"@ }
        },
{
}

/// Trying goes on until both directions work or the time is up, and a packet is
/// sent every quarter of a second.
pub proof fn trying_goes_on_until_it_works(p: Punch, now: u128, sent: u128)
    ensures
        p.goes_on(now) <==> now < p.deadline && (p.heard_from_them is None
            || p.they_heard_us is None),
        p.last_sent is None ==> p.due(now),
        p.last_sent == Some(sent) && now >= sent ==> p.due(now) == (now >= sent + 250_000_000),
        REFRESH_EVERY == 20_000_000_000,
{
}

} // verus!
