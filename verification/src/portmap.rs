//! Asking the router for a door, and keeping it open.
//!
//! A mesh with nobody reachable cannot admit anyone it is not already connected
//! to: hole punching needs both sides to know each other's live address, which
//! needs an introducer, which needs somebody reachable. A forwarded port is how
//! the first somebody comes to exist.
//!
//! Most consumer routers will open one on request. The mapping expires, which is
//! the part that matters here: a node that asks once and forgets stops being
//! reachable an hour later, silently, while appearing entirely healthy.
use crate::addr::Ip4;
use crate::bytes::{be_bytes, be_value, get_u16_be, get_u32_be, put_u16_be, put_u32_be};
use crate::text::{
    decimal, lines, lines_of, number_up_to, push_decimal, read_number, texts, words, words_of,
};
use crate::utf8::same_text;
use vstd::prelude::*;

verus! {

/// The port on which routers take such requests.
pub const NAT_PMP_PORT: u16 = 5351;

/// How long each mapping is requested for, in seconds.
pub const LIFETIME_SECS: u32 = 3600;

/// How often to ask again, in seconds.
///
/// A quarter of the lifetime, so three consecutive failures (a router
/// rebooting, a moment of packet loss) pass before reachability is actually
/// lost. Renewing at the last moment would make any single failure fatal.
pub const RENEW_EVERY_SECS: u64 = 900;

/// How often a question is put before the router is taken to be silent.
pub const TRIES: u8 = 3;

/// What a router agreed to.
#[derive(Debug, Clone, Copy, PartialEq, Eq, Structural)]
pub struct Mapping {
    pub external_ip: Ip4,
    pub external_port: u16,
    pub lifetime: u32,
}

/// Why there is no mapping.
#[derive(Debug, Clone, Copy, PartialEq, Eq, Structural)]
pub enum PortError {
    /// This machine sends through no router.
    NoRoute,
    /// The router would not say its own address.
    NoAddress,
    /// The router said something else.
    NoUsableAnswer,
    Refused(u16),
    NoAnswer,
}

impl PortError {
    /// The reason in words.
    pub open spec fn spec_message(self) -> Seq<char> {
        match self {
            PortError::NoRoute => "no default route"@,
            PortError::NoAddress => "the router would not say its address"@,
            PortError::NoUsableAnswer => "the router gave no usable answer"@,
            PortError::Refused(code) => "the router refused: code "@ + decimal(code as nat),
            PortError::NoAnswer =>
                "the router did not answer — it may not speak NAT-PMP, or may have it switched off"@,
        }
    }

    /// The reason in words.
    pub fn message(&self) -> (text: String)
        ensures
            text@ == self.spec_message(),
    {
        match self {
            PortError::NoRoute => "no default route".to_owned(),
            PortError::NoAddress => "the router would not say its address".to_owned(),
            PortError::NoUsableAnswer => "the router gave no usable answer".to_owned(),
            PortError::Refused(code) => {
                let mut text = "the router refused: code ".to_owned();
                push_decimal(&mut text, *code as u128);
                text
            },
            PortError::NoAnswer =>
                "the router did not answer — it may not speak NAT-PMP, or may have it switched off".to_owned(),
        }
    }
}

/// Two bytes at `at` as a number, the most significant first.
pub open spec fn short_at(bytes: Seq<u8>, at: int) -> nat {
    be_value(bytes.subrange(at, at + 2))
}

/// Four bytes at `at` as a number, the most significant first.
pub open spec fn long_at(bytes: Seq<u8>, at: int) -> nat {
    be_value(bytes.subrange(at, at + 4))
}

/// The address that a router says it has, if the reply says so.
pub open spec fn address_said(reply: Seq<u8>) -> Option<Ip4> {
    if reply.len() < 12 || reply[1] != 128 || short_at(reply, 2) != 0 {
        None
    } else {
        Some(Ip4 { a: reply[8], b: reply[9], c: reply[10], d: reply[11] })
    }
}

/// The address that a router says it has.
pub fn read_address_reply(reply: &[u8]) -> (ip: Option<Ip4>)
    ensures
        ip == address_said(reply@),
{
    if reply.len() < 12 || reply[1] != 128 || get_u16_be(reply, 2) != 0 {
        return None;
    }
    Some(Ip4 { a: reply[8], b: reply[9], c: reply[10], d: reply[11] })
}

/// What a router that has the address `ip` agreed to, or why it did not.
pub open spec fn mapping_said(reply: Seq<u8>, ip: Ip4) -> Result<Mapping, PortError> {
    if reply.len() < 16 || reply[1] != 129 {
        Err(PortError::NoUsableAnswer)
    } else if short_at(reply, 2) != 0 {
        Err(PortError::Refused(short_at(reply, 2) as u16))
    } else {
        Ok(
            Mapping {
                external_ip: ip,
                external_port: short_at(reply, 10) as u16,
                lifetime: long_at(reply, 12) as u32,
            },
        )
    }
}

/// What a router that has the address `ip` agreed to.
pub fn read_mapping_reply(reply: &[u8], ip: Ip4) -> (res: Result<Mapping, PortError>)
    ensures
        res == mapping_said(reply@, ip),
{
    if reply.len() < 16 || reply[1] != 129 {
        return Err(PortError::NoUsableAnswer);
    }
    let code = get_u16_be(reply, 2);
    if code != 0 {
        return Err(PortError::Refused(code));
    }
    Ok(
        Mapping {
            external_ip: ip,
            external_port: get_u16_be(reply, 10),
            lifetime: get_u32_be(reply, 12),
        },
    )
}

/// The question that is being put to the router.
#[derive(Debug, Clone, Copy, PartialEq, Eq, Structural)]
pub enum Question {
    /// What address it has. Asked separately because a router that answers this
    /// and refuses the mapping is a different situation from one that does not
    /// speak the protocol at all.
    Address,
    /// Whether it forwards the port, now that its address is known.
    Forward(Ip4),
}

/// Asking a router to forward a port.
#[derive(Debug, Clone, Copy, PartialEq, Eq, Structural)]
pub struct Exchange {
    pub port: u16,
    pub lifetime: u32,
    pub question: Question,
    /// How often the question has been put so far.
    pub tries: u8,
}

/// What happened after the question was put.
pub enum Answer {
    /// The router replied.
    Reply(Vec<u8>),
    /// Nothing came, or something from somebody else.
    Nothing,
}

/// What comes next.
pub enum Step {
    /// The question is to be put, once more or for the first time.
    Ask(Vec<u8>),
    Agreed(Mapping),
    Failed(PortError),
}

/// What comes next, as values.
#[verifier::ext_equal]
pub enum Next {
    Ask(Seq<u8>),
    Agreed(Mapping),
    Failed(PortError),
}

impl View for Step {
    type V = Next;

    open spec fn view(&self) -> Next {
        match self {
            Step::Ask(bytes) => Next::Ask(bytes@),
            Step::Agreed(mapping) => Next::Agreed(*mapping),
            Step::Failed(error) => Next::Failed(*error),
        }
    }
}

impl Exchange {
    /// The bytes of the question. The same external port is asked for as the
    /// internal one: a router that agrees gives this node a predictable address
    /// that peers can remember across restarts.
    pub open spec fn bytes(self) -> Seq<u8> {
        match self.question {
            Question::Address => seq![0u8, 0u8],
            Question::Forward(_) => seq![0u8, 1u8, 0u8, 0u8] + be_bytes(self.port as nat, 2)
                + be_bytes(self.port as nat, 2) + be_bytes(self.lifetime as nat, 4),
        }
    }

    /// The exchange, and what comes next, once this was the answer. A question
    /// that is not answered is put three times.
    pub open spec fn after(self, reply: Option<Seq<u8>>) -> (Exchange, Next) {
        match reply {
            None => if self.tries >= TRIES {
                (self, Next::Failed(PortError::NoAnswer))
            } else {
                (Exchange { tries: (self.tries + 1) as u8, ..self }, Next::Ask(self.bytes()))
            },
            Some(reply) => match self.question {
                Question::Address => match address_said(reply) {
                    None => (self, Next::Failed(PortError::NoAddress)),
                    Some(ip) => {
                        let next = Exchange { question: Question::Forward(ip), tries: 1, ..self };
                        (next, Next::Ask(next.bytes()))
                    },
                },
                Question::Forward(ip) => match mapping_said(reply, ip) {
                    Ok(mapping) => (self, Next::Agreed(mapping)),
                    Err(error) => (self, Next::Failed(error)),
                },
            },
        }
    }

    fn ask(&self) -> (bytes: Vec<u8>)
        ensures
            bytes@ == self.bytes(),
    {
        match self.question {
            Question::Address => vec![0u8, 0u8],
            Question::Forward(_) => {
                let mut bytes: Vec<u8> = vec![0u8, 1u8, 0u8, 0u8];
                put_u16_be(&mut bytes, self.port);
                put_u16_be(&mut bytes, self.port);
                put_u32_be(&mut bytes, self.lifetime);
                bytes
            },
        }
    }

    /// The question was put, and this was the answer.
    pub fn on_answer(&mut self, answer: Answer) -> (step: Step)
        ensures
            (*final(self), step@) == old(self).after(
                match answer {
                    Answer::Reply(reply) => Some(reply@),
                    Answer::Nothing => None,
                },
            ),
    {
        match answer {
            Answer::Nothing => {
                if self.tries >= TRIES {
                    return Step::Failed(PortError::NoAnswer);
                }
                self.tries = self.tries + 1;
                Step::Ask(self.ask())
            },
            Answer::Reply(reply) => match self.question {
                Question::Address => match read_address_reply(&reply) {
                    None => Step::Failed(PortError::NoAddress),
                    Some(ip) => {
                        self.question = Question::Forward(ip);
                        self.tries = 1;
                        Step::Ask(self.ask())
                    },
                },
                Question::Forward(ip) => match read_mapping_reply(&reply, ip) {
                    Ok(mapping) => Step::Agreed(mapping),
                    Err(error) => Step::Failed(error),
                },
            },
        }
    }
}

/// Asks the router to forward `port`: the exchange, and what to send first.
pub fn request(port: u16, lifetime: u32) -> (res: (Exchange, Vec<u8>))
    ensures
        res.0 == (Exchange { port, lifetime, question: Question::Address, tries: 1 }),
        res.1@ == res.0.bytes(),
{
    let exchange = Exchange { port, lifetime, question: Question::Address, tries: 1 };
    let bytes = exchange.ask();
    (exchange, bytes)
}

/// Gives the port back: the exchange, and what to send first.
///
/// A lifetime of zero deletes the mapping. Not required, since it would lapse on
/// its own, but leaving a door open in someone's router after leaving is untidy
/// in the same way as vanishing without saying goodbye.
pub fn release(port: u16) -> (res: (Exchange, Vec<u8>))
    ensures
        res.0 == (Exchange { port, lifetime: 0, question: Question::Address, tries: 1 }),
        res.1@ == res.0.bytes(),
{
    request(port, 0)
}

/// A router that never answers a question is asked it three times in all, and
/// then taken to be silent.
pub proof fn a_silent_router_is_asked_three_times(exchange: Exchange)
    requires
        exchange.tries == 1,
    ensures
        ({
            let (second, again) = exchange.after(None);
            let (third, once_more) = second.after(None);
            &&& again == Next::Ask(exchange.bytes())
            &&& once_more == Next::Ask(exchange.bytes())
            &&& third.after(None).1 == Next::Failed(PortError::NoAnswer)
        }),
{
}

/// What is agreed to is what the router said last, for the port and with the
/// address that it was asked about; nothing else ends in an agreement.
pub proof fn only_a_reply_makes_a_mapping(exchange: Exchange, reply: Option<Seq<u8>>)
    ensures
        exchange.after(reply).1 matches Next::Agreed(mapping) ==> {
            &&& reply is Some
            &&& exchange.question == Question::Forward(mapping.external_ip)
            &&& mapping_said(reply->0, mapping.external_ip) == Ok::<_, PortError>(mapping)
        },
{
}

/// The router that a line of the routing table names, if it is that of the
/// default route. The table has its numbers the wrong way round: the first part
/// of the address is the lowest byte. A default route with no router on the way
/// has nought there, and names none.
pub open spec fn gateway_on(line: Seq<char>) -> Option<Ip4> {
    let fields = words(line);
    if fields.len() < 3 || fields[1] != "00000000"@ {
        None
    } else {
        match number_up_to(fields[2], 16, u32::MAX as nat) {
            Some(raw) => if raw == 0 {
                None
            } else {
                Some(
                    Ip4 {
                        a: (raw % 0x100) as u8,
                        b: (raw / 0x100 % 0x100) as u8,
                        c: (raw / 0x1_0000 % 0x100) as u8,
                        d: (raw / 0x100_0000 % 0x100) as u8,
                    },
                )
            },
            None => None,
        }
    }
}

/// Whatever a line of the routing table says, no router lives nowhere.
proof fn lemma_gateways_are_somewhere(table: Seq<Seq<char>>)
    ensures
        gateway_among(table) matches Some(ip) ==> ip != (Ip4 { a: 0, b: 0, c: 0, d: 0 }),
    decreases table.len(),
{
    if table.len() > 0 {
        lemma_gateways_are_somewhere(table.drop_first());
    }
}

/// The first router that one of these lines names.
pub open spec fn gateway_among(table: Seq<Seq<char>>) -> Option<Ip4>
    decreases table.len(),
{
    if table.len() == 0 {
        None
    } else {
        match gateway_on(table[0]) {
            Some(ip) => Some(ip),
            None => gateway_among(table.drop_first()),
        }
    }
}

/// The router that a routing table names; its first line names the columns.
pub open spec fn gateway_in(routes: Seq<char>) -> Option<Ip4> {
    let table = lines(routes);
    if table.len() == 0 {
        None
    } else {
        gateway_among(table.drop_first())
    }
}

fn read_gateway(line: &str) -> (ip: Option<Ip4>)
    ensures
        ip == gateway_on(line@),
{
    let fields = words_of(line);
    if fields.len() < 3 {
        return None;
    }
    proof {
        assert(words(line@)[1] == fields@[1]@);
        assert(words(line@)[2] == fields@[2]@);
    }
    if !same_text(&fields[1], "00000000") {
        return None;
    }
    match read_number(&fields[2], 16, u32::MAX as u64) {
        Some(raw) => if raw == 0 {
            None
        } else {
            Some(
                Ip4 {
                    a: (raw % 0x100) as u8,
                    b: (raw / 0x100 % 0x100) as u8,
                    c: (raw / 0x1_0000 % 0x100) as u8,
                    d: (raw / 0x100_0000 % 0x100) as u8,
                },
            )
        },
        None => None,
    }
}

/// The router this machine sends through, from the kernel's routing table.
pub fn default_gateway(routes: &str) -> (ip: Option<Ip4>)
    ensures
        ip == gateway_in(routes@),
        ip matches Some(router) ==> router != (Ip4 { a: 0, b: 0, c: 0, d: 0 }),
{
    proof {
        let table = lines(routes@);
        if table.len() > 0 {
            lemma_gateways_are_somewhere(table.drop_first());
        }
    }
    let table = lines_of(routes);
    let ghost all = lines(routes@);
    if table.len() == 0 {
        return None;
    }
    let mut at: usize = 1;
    assert(all.skip(1) =~= all.drop_first());
    while at < table.len()
        invariant
            1 <= at <= table@.len(),
            texts(table@) == all,
            all == lines(routes@),
            gateway_in(routes@) == gateway_among(all.skip(at as int)),
        decreases table@.len() - at,
    {
        proof {
            assert(texts(table@)[at as int] == table@[at as int]@);
            assert(all.skip(at as int)[0] == table@[at as int]@);
            assert(all.skip(at as int).drop_first() =~= all.skip(at + 1));
        }
        if let Some(ip) = read_gateway(&table[at]) {
            return Some(ip);
        }
        at += 1;
    }
    None
}

proof fn lemma_numbers_in_replies(reply: Seq<u8>, at: int)
    requires
        0 <= at,
        at + 4 <= reply.len(),
    ensures
        short_at(reply, at) == 0x100 * reply[at] + reply[at + 1],
        long_at(reply, at) == 0x100_0000 * reply[at] + 0x1_0000 * reply[at + 1] + 0x100 * reply[at
            + 2] + reply[at + 3],
{
    let (a, b, c, d) = (reply[at], reply[at + 1], reply[at + 2], reply[at + 3]);
    crate::bytes::values_of_four_bytes(a, b, c, d);
    assert(reply.subrange(at, at + 2) =~= seq![a, b]);
    assert(reply.subrange(at, at + 4) =~= seq![a, b, c, d]);
}

/// A router tells its address in the last four of twelve bytes, behind a kind and
/// a code of nought, and nothing else tells it.
pub proof fn a_router_tells_its_address(reply: Seq<u8>)
    ensures
        ({
            let told = reply.len() >= 12 && reply[1] == 128 && reply[2] == 0 && reply[3] == 0;
            &&& told ==> address_said(reply) == Some(
                Ip4 { a: reply[8], b: reply[9], c: reply[10], d: reply[11] },
            )
            &&& !told ==> address_said(reply) is None
        }),
{
    if reply.len() >= 12 {
        lemma_numbers_in_replies(reply, 2);
    }
}

/// A router that agrees says to which port and for how long; one that refuses
/// says why; and what is too short or of another kind says nothing that is of
/// use.
pub proof fn a_router_agrees_or_refuses(reply: Seq<u8>, ip: Ip4)
    ensures
        ({
            let usable = reply.len() >= 16 && reply[1] == 129;
            let code = 0x100 * reply[2] + reply[3];
            let said = mapping_said(reply, ip);
            &&& !usable ==> said == Err::<Mapping, _>(PortError::NoUsableAnswer)
            &&& usable && code != 0 ==> said == Err::<Mapping, _>(PortError::Refused(code as u16))
            &&& usable && code == 0 ==> {
                &&& said is Ok
                &&& said->Ok_0.external_ip == ip
                &&& said->Ok_0.external_port == 0x100 * reply[10] + reply[11]
                &&& said->Ok_0.lifetime == 0x100_0000 * reply[12] + 0x1_0000 * reply[13] + 0x100
                    * reply[14] + reply[15]
            }
        }),
{
    if reply.len() >= 16 {
        lemma_numbers_in_replies(reply, 2);
        lemma_numbers_in_replies(reply, 10);
        lemma_numbers_in_replies(reply, 12);
    }
}

/// The router is asked for the same port outside as inside, for so long; its
/// address is asked for in two bytes.
pub proof fn the_same_port_is_asked_for(e: Exchange)
    ensures
        e.question is Address ==> e.bytes() == seq![0u8, 0],
        e.question is Forward ==> e.bytes() == seq![
            0u8,
            1,
            0,
            0,
            (e.port / 0x100) as u8,
            (e.port % 0x100) as u8,
            (e.port / 0x100) as u8,
            (e.port % 0x100) as u8,
            (e.lifetime / 0x100_0000) as u8,
            (e.lifetime / 0x1_0000 % 0x100) as u8,
            (e.lifetime / 0x100 % 0x100) as u8,
            (e.lifetime % 0x100) as u8,
        ],
{
    crate::bytes::bytes_of_small_numbers(e.port as nat);
    crate::bytes::bytes_of_small_numbers(e.lifetime as nat);
    if e.question is Forward {
        assert(e.bytes() =~= seq![
            0u8,
            1,
            0,
            0,
            (e.port / 0x100) as u8,
            (e.port % 0x100) as u8,
            (e.port / 0x100) as u8,
            (e.port % 0x100) as u8,
            (e.lifetime / 0x100_0000) as u8,
            (e.lifetime / 0x1_0000 % 0x100) as u8,
            (e.lifetime / 0x100 % 0x100) as u8,
            (e.lifetime % 0x100) as u8,
        ]);
    }
}

/// A router that tells its address and then agrees has agreed: for the port and
/// the time that it was asked for, and with the address that it told first. Each
/// question starts with all of its attempts, and a router that will not tell its
/// address is asked nothing more.
pub proof fn a_willing_router_forwards(e: Exchange, first: Seq<u8>, second: Seq<u8>)
    requires
        e.question is Address,
    ensures
        ({
            let (asked, step) = e.after(Some(first));
            let told = address_said(first);
            &&& told is None ==> asked == e && step == Next::Failed(PortError::NoAddress)
            &&& told is Some ==> {
                &&& asked.question == Question::Forward(told->0)
                &&& asked.port == e.port && asked.lifetime == e.lifetime
                &&& asked.tries == 1
                &&& step == Next::Ask(asked.bytes())
                &&& match mapping_said(second, told->0) {
                    Ok(mapping) => asked.after(Some(second)).1 == Next::Agreed(mapping),
                    Err(error) => asked.after(Some(second)).1 == Next::Failed(error),
                }
            }
        }),
{
}

/// A line of the routing table names a router exactly where its second word is
/// the default route and its third the router's address, lowest part first, in
/// hexadecimal: and that is the router that is read.
pub proof fn a_router_is_read_lowest_part_first(line: Seq<char>, a: u8, b: u8, c: u8, d: u8)
    requires
        words(line).len() >= 3,
    ensures
        ({
            let raw = a + 0x100 * b + 0x1_0000 * c + 0x100_0000 * d;
            words(line)[1] == "00000000"@ && number_up_to(words(line)[2], 16, 0xffff_ffff) == Some(
                raw as nat,
            ) ==> gateway_on(line) == if raw == 0 {
                None
            } else {
                Some(Ip4 { a, b, c, d })
            }
        }),
        words(line)[1] != "00000000"@ ==> gateway_on(line) is None,
        number_up_to(words(line)[2], 16, 0xffff_ffff) is None ==> gateway_on(line) is None,
{
    let raw = a + 0x100 * b + 0x1_0000 * c + 0x100_0000 * d;
    assert(raw % 0x100 == a);
    assert(raw / 0x100 == b + 0x100 * c + 0x1_0000 * d);
    assert(raw / 0x1_0000 == c + 0x100 * d);
    assert(raw / 0x100_0000 == d);
}

/// The first line that names a router counts, whatever comes before it or behind
/// it; the line that names the columns is not looked at; and where no line names
/// one there is none.
pub proof fn the_first_router_counts(routes: Seq<char>, k: int)
    requires
        1 <= k <= lines(routes).len(),
        forall|i: int| 1 <= i < k ==> gateway_on(#[trigger] lines(routes)[i]) is None,
    ensures
        k < lines(routes).len() && gateway_on(lines(routes)[k]) is Some ==> gateway_in(routes)
            == gateway_on(lines(routes)[k]),
        k == lines(routes).len() ==> gateway_in(routes) is None,
        lines(routes).len() <= 1 ==> gateway_in(routes) is None,
{
    let table = lines(routes).drop_first();
    assert forall|i: int| 0 <= i < k - 1 implies gateway_on(#[trigger] table[i]) is None by {
        assert(table[i] == lines(routes)[i + 1]);
    }
    lemma_first_router(table, k - 1);
}

proof fn lemma_first_router(table: Seq<Seq<char>>, k: int)
    requires
        0 <= k <= table.len(),
        forall|i: int| 0 <= i < k ==> gateway_on(#[trigger] table[i]) is None,
    ensures
        k < table.len() && gateway_on(table[k]) is Some ==> gateway_among(table) == gateway_on(
            table[k],
        ),
        k == table.len() ==> gateway_among(table) is None,
    decreases k,
{
    if k > 0 {
        let rest = table.drop_first();
        assert(gateway_on(table[0]) is None);
        assert forall|i: int| 0 <= i < k - 1 implies gateway_on(#[trigger] rest[i]) is None by {
            assert(rest[i] == table[i + 1]);
        }
        lemma_first_router(rest, k - 1);
    }
}

/// A mapping that lasts an hour is renewed four times in it, so that three renewals
/// in a row may fail before it lapses.
pub proof fn three_renewals_may_fail()
    ensures
        4 * RENEW_EVERY_SECS == LIFETIME_SECS,
        LIFETIME_SECS == 3_600,
        NAT_PMP_PORT == 5351,
{
}

} // verus!
