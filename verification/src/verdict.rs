//! What a connection can and cannot do, by what servers saw of it.
use crate::addr::{
    ip4_of, ip_in, ip_text, is_global, is_global_unicast_v6, is_private, is_private_address,
    is_shared, is_shared_address_space, place_text, Endpoint, Ip, Place,
};
use crate::chance::{may_be_now, now_seconds};
use crate::clock::{format_utc, is_stamp};
use crate::json::{quote, quoted};
use crate::text::{decimal, holds_part, join_text, joined, push_decimal, texts};
use vstd::prelude::*;

verus! {

/// An address family.
#[derive(Clone, Copy, PartialEq, Eq, Structural, Debug)]
pub enum Family {
    V4,
    V6,
}

impl Family {
    /// The name of the family.
    pub open spec fn name(self) -> Seq<char> {
        match self {
            Family::V4 => "IPv4"@,
            Family::V6 => "IPv6"@,
        }
    }

    /// The name of the family.
    pub fn label(self) -> (name: &'static str)
        ensures
            name@ == self.name(),
    {
        match self {
            Family::V4 => "IPv4",
            Family::V6 => "IPv6",
        }
    }

    /// Whether an endpoint is of this family.
    pub fn matches(self, endpoint: &Endpoint) -> (yes: bool)
        ensures
            yes == match self {
                Family::V4 => endpoint@.0.len() == 4,
                Family::V6 => endpoint@.0.len() == 16,
            },
    {
        match (self, endpoint.ip) {
            (Family::V4, Ip::V4(_)) => true,
            (Family::V6, Ip::V6(_)) => true,
            _ => false,
        }
    }
}

/// What one server saw.
pub struct Observation {
    pub server: String,
    pub server_ip: Ip,
    pub mapped: Endpoint,
}

/// What one server saw, as values.
pub struct Sight {
    pub server: Seq<char>,
    pub server_ip: Seq<u8>,
    pub mapped: Place,
}

impl View for Observation {
    type V = Sight;

    open spec fn view(&self) -> Sight {
        Sight { server: self.server@, server_ip: self.server_ip@, mapped: self.mapped@ }
    }
}

/// What is known of one family.
pub struct FamilyResult {
    pub family: Family,
    pub local: Option<Ip>,
    pub observations: Vec<Observation>,
    pub errors: Vec<String>,
}

/// What is known of one family, as values.
#[verifier::ext_equal]
pub struct Findings {
    pub family: Family,
    pub local: Option<Seq<u8>>,
    pub seen: Seq<Sight>,
    pub errors: Seq<Seq<char>>,
}

/// Observations, as values.
pub open spec fn sights(observations: Seq<Observation>) -> Seq<Sight> {
    Seq::new(observations.len(), |i: int| observations[i]@)
}

impl View for FamilyResult {
    type V = Findings;

    open spec fn view(&self) -> Findings {
        Findings {
            family: self.family,
            local: ip_in(self.local),
            seen: sights(self.observations@),
            errors: texts(self.errors@),
        }
    }
}

/// A server's name in a column of its own.
pub open spec fn column(server: Seq<char>) -> Seq<char> {
    "  "@ + server + spaces(28, server.len()) + " "@
}

/// As many spaces as are missing to `width`.
pub open spec fn spaces(width: nat, len: nat) -> Seq<char> {
    Seq::new(
        if len < width {
            (width - len) as nat
        } else {
            0
        },
        |i: int| ' ',
    )
}

fn push_column(out: &mut String, server: &str)
    ensures
        final(out)@ == old(out)@ + column(server@),
{
    out.push_str("  ");
    out.push_str(server);
    let len = crate::text::chars_of(server).len();
    let ghost head = out@;
    let mut at: usize = len;
    assert(out@ =~= head + Seq::new(0, |i: int| ' '));
    while at < 28
        invariant
            len == server@.len(),
            len <= at,
            at <= 28 || at == len,
            out@ == head + Seq::new((at - len) as nat, |i: int| ' '),
        decreases 28 - at,
    {
        out.push(' ');
        at += 1;
        assert(out@ =~= head + Seq::new((at - len) as nat, |i: int| ' '));
    }
    out.push_str(" ");
    assert(out@ =~= old(out)@ + column(server@));
}

impl FamilyResult {
    /// Nothing known yet.
    pub fn new(family: Family) -> (result: FamilyResult)
        ensures
            result@ == (Findings {
                family,
                local: None,
                seen: Seq::empty(),
                errors: Seq::empty(),
            }),
    {
        let result = FamilyResult {
            family,
            local: None,
            observations: Vec::new(),
            errors: Vec::new(),
        };
        assert(result@.seen =~= Seq::empty());
        assert(result@.errors =~= Seq::empty());
        result
    }

    /// No socket of this family could be opened.
    pub fn on_no_socket(&mut self, why: &str)
        ensures
            final(self)@ == (Findings {
                errors: old(self)@.errors.push(
                    "cannot open a "@ + old(self)@.family.name() + " socket: "@ + why@,
                ),
                ..old(self)@
            }),
    {
        let mut text = "cannot open a ".to_owned();
        text.push_str(self.family.label());
        text.push_str(" socket: ");
        text.push_str(why);
        self.errors.push(text);
        assert(texts(self.errors@) =~= old(self)@.errors.push(text@));
    }

    /// A server saw this machine. Gives the line to show for it.
    pub fn on_seen(&mut self, server: &str, server_ip: Ip, mapped: Endpoint) -> (line: String)
        ensures
            final(self)@ == (Findings {
                seen: old(self)@.seen.push(
                    Sight { server: server@, server_ip: server_ip@, mapped: mapped@ },
                ),
                ..old(self)@
            }),
            line@ == column(server@) + "sees us as "@ + place_text(mapped@),
    {
        let observation = Observation { server: server.to_owned(), server_ip, mapped };
        self.observations.push(observation);
        assert(sights(self.observations@) =~= old(self)@.seen.push(observation@));
        let mut line = String::new();
        push_column(&mut line, server);
        assert(line@ =~= column(server@));
        line.push_str("sees us as ");
        line.push_str(&mapped.text());
        line
    }

    /// A server told nothing. Gives the line to show for it.
    pub fn on_missed(&mut self, server: &str, why: &str) -> (line: String)
        ensures
            final(self)@ == (Findings {
                errors: old(self)@.errors.push(server@ + ": "@ + why@),
                ..old(self)@
            }),
            line@ == column(server@) + why@,
    {
        let mut text = server.to_owned();
        text.push_str(": ");
        text.push_str(why);
        self.errors.push(text);
        assert(texts(self.errors@) =~= old(self)@.errors.push(text@));
        let mut line = String::new();
        push_column(&mut line, server);
        assert(line@ =~= column(server@));
        line.push_str(why);
        line
    }
}

/// What a connection amounts to.
pub struct Verdict {
    pub tag: String,
    pub notes: Vec<String>,
    pub reachable: bool,
}

/// What a connection amounts to, as values.
#[verifier::ext_equal]
pub struct Judgement {
    pub tag: Seq<char>,
    pub notes: Seq<Seq<char>>,
    pub reachable: bool,
}

impl View for Verdict {
    type V = Judgement;

    open spec fn view(&self) -> Judgement {
        Judgement { tag: self.tag@, notes: texts(self.notes@), reachable: self.reachable }
    }
}

/// Whether every server that answered has the same address, so that nothing can
/// be compared.
pub open spec fn one_observer(seen: Seq<Sight>) -> bool {
    forall|i: int| 0 <= i < seen.len() ==> (#[trigger] seen[i]).server_ip == seen[0].server_ip
}

/// Whether every server saw the same port.
pub open spec fn one_port(seen: Seq<Sight>) -> bool {
    forall|i: int| 0 <= i < seen.len() ==> (#[trigger] seen[i]).mapped.1 == seen[0].mapped.1
}

/// How an IPv4 connection reaches the internet.
#[derive(Clone, Copy, PartialEq, Eq, Structural, Debug)]
pub enum Reach {
    Unreachable,
    Public,
    Cgnat,
    DoubleNat,
    Unclassified,
    EndpointIndependent,
    AddressDependent,
}

/// How an IPv4 connection reaches the internet, by what was seen of it. An
/// address in the ISPs' shared range is proof of carrier-grade NAT, whatever the
/// machine's own address is.
pub open spec fn reach(found: Findings) -> Reach {
    if found.seen.len() == 0 {
        Reach::Unreachable
    } else {
        let ip = found.seen[0].mapped.0;
        if ip.len() == 4 && is_shared(ip4_of(ip)) {
            Reach::Cgnat
        } else if found.local == Some(ip) {
            Reach::Public
        } else if ip.len() == 4 && is_private(ip4_of(ip)) {
            Reach::DoubleNat
        } else if one_observer(found.seen) {
            Reach::Unclassified
        } else if one_port(found.seen) {
            Reach::EndpointIndependent
        } else {
            Reach::AddressDependent
        }
    }
}

impl Reach {
    /// What it is called in a record.
    pub open spec fn tag(self) -> Seq<char> {
        match self {
            Reach::Unreachable => "unreachable"@,
            Reach::Public => "public"@,
            Reach::Cgnat => "cgnat"@,
            Reach::DoubleNat => "double-nat"@,
            Reach::Unclassified => "nat-unclassified"@,
            Reach::EndpointIndependent => "nat-endpoint-independent"@,
            Reach::AddressDependent => "nat-address-dependent"@,
        }
    }

    fn tag_text(self) -> (text: &'static str)
        ensures
            text@ == self.tag(),
    {
        match self {
            Reach::Unreachable => "unreachable",
            Reach::Public => "public",
            Reach::Cgnat => "cgnat",
            Reach::DoubleNat => "double-nat",
            Reach::Unclassified => "nat-unclassified",
            Reach::EndpointIndependent => "nat-endpoint-independent",
            Reach::AddressDependent => "nat-address-dependent",
        }
    }

    /// What it means, where that does not depend on who saw what.
    pub open spec fn meaning(self) -> Seq<char> {
        match self {
            Reach::Unreachable =>
                "IPv4: no STUN server could be reached. Either this connection blocks outbound UDP, or it has no IPv4 route at all."@,
            Reach::Public =>
                "IPv4: this connection has a public address with no translation in the way, so it is a candidate for carrying relay duty. Whether a firewall permits incoming connections is a separate question this probe cannot answer alone."@,
            Reach::Cgnat =>
                "IPv4: CARRIER-GRADE NAT confirmed — the address the internet sees is itself inside the ISP's shared range. Incoming connections are impossible on IPv4, and direct connections to other such machines will usually fail."@,
            Reach::DoubleNat =>
                "IPv4: the address the internet sees is itself private, meaning at least two layers of translation. Treat this the same as carrier-grade NAT."@,
            Reach::Unclassified =>
                "IPv4: behind translation, but only one STUN operator answered, so the mapping behaviour could not be classified. Re-run when the network is quieter."@,
            Reach::EndpointIndependent =>
                "IPv4: behind translation, but the same external port is used no matter who is being contacted. This is the good case — hole punching should work against other peers."@,
            Reach::AddressDependent =>
                "IPv4: behind translation that assigns a different external port per destination ("@,
        }
    }

    fn meaning_text(self) -> (text: &'static str)
        ensures
            text@ == self.meaning(),
    {
        match self {
            Reach::Unreachable =>
                "IPv4: no STUN server could be reached. Either this connection blocks outbound UDP, or it has no IPv4 route at all.",
            Reach::Public =>
                "IPv4: this connection has a public address with no translation in the way, so it is a candidate for carrying relay duty. Whether a firewall permits incoming connections is a separate question this probe cannot answer alone.",
            Reach::Cgnat =>
                "IPv4: CARRIER-GRADE NAT confirmed — the address the internet sees is itself inside the ISP's shared range. Incoming connections are impossible on IPv4, and direct connections to other such machines will usually fail.",
            Reach::DoubleNat =>
                "IPv4: the address the internet sees is itself private, meaning at least two layers of translation. Treat this the same as carrier-grade NAT.",
            Reach::Unclassified =>
                "IPv4: behind translation, but only one STUN operator answered, so the mapping behaviour could not be classified. Re-run when the network is quieter.",
            Reach::EndpointIndependent =>
                "IPv4: behind translation, but the same external port is used no matter who is being contacted. This is the good case — hole punching should work against other peers.",
            Reach::AddressDependent =>
                "IPv4: behind translation that assigns a different external port per destination (",
        }
    }
}

/// Which port each server saw.
pub open spec fn ports_seen(seen: Seq<Sight>) -> Seq<Seq<char>> {
    Seq::new(seen.len(), |i: int| seen[i].server + " -> :"@ + decimal(seen[i].mapped.1 as nat))
}

/// What an IPv4 connection means, in full.
pub open spec fn reach_note(found: Findings) -> Seq<char> {
    if reach(found) is AddressDependent {
        Reach::AddressDependent.meaning() + joined(ports_seen(found.seen), ", "@)
            + "). This is the hard case — hole punching is unreliable and a relay will usually be needed."@
    } else {
        reach(found).meaning()
    }
}

/// What an IPv4 connection amounts to. Only one with nothing translating in
/// front of it may carry relay duty.
pub open spec fn judged_v4(found: Findings) -> Judgement {
    let told = if found.seen.len() == 0 {
        Seq::empty()
    } else {
        (if found.local is Some {
            seq!["IPv4: this machine's own address is "@ + ip_text(found.local->0)]
        } else {
            Seq::empty()
        }).push("IPv4: the internet sees this machine as "@ + place_text(found.seen[0].mapped))
    };
    Judgement {
        tag: reach(found).tag(),
        notes: told.push(reach_note(found)),
        reachable: reach(found) is Public,
    }
}

/// Adds a note.
fn add_note(notes: &mut Vec<String>, note: String)
    ensures
        texts(final(notes)@) == texts(old(notes)@).push(note@),
{
    notes.push(note);
    assert(texts(notes@) =~= texts(old(notes)@).push(note@));
}

fn has_one_observer(seen: &[Observation]) -> (yes: bool)
    requires
        seen@.len() > 0,
    ensures
        yes == one_observer(sights(seen@)),
{
    let mut at: usize = 0;
    while at < seen.len()
        invariant
            at <= seen@.len(),
            seen@.len() > 0,
            forall|i: int|
                0 <= i < at ==> (#[trigger] sights(seen@)[i]).server_ip == seen@[0].server_ip@,
        decreases seen@.len() - at,
    {
        if !seen[at].server_ip.same(&seen[0].server_ip) {
            assert(sights(seen@)[at as int].server_ip != sights(seen@)[0].server_ip);
            return false;
        }
        at += 1;
    }
    true
}

fn has_one_port(seen: &[Observation]) -> (yes: bool)
    requires
        seen@.len() > 0,
    ensures
        yes == one_port(sights(seen@)),
{
    let mut at: usize = 0;
    while at < seen.len()
        invariant
            at <= seen@.len(),
            seen@.len() > 0,
            forall|i: int|
                0 <= i < at ==> (#[trigger] sights(seen@)[i]).mapped.1 == seen@[0].mapped.port,
        decreases seen@.len() - at,
    {
        if seen[at].mapped.port != seen[0].mapped.port {
            assert(sights(seen@)[at as int].mapped.1 != sights(seen@)[0].mapped.1);
            return false;
        }
        at += 1;
    }
    true
}

/// Which port each server saw, in one line.
fn ports_text(seen: &[Observation]) -> (text: String)
    ensures
        text@ == joined(ports_seen(sights(seen@)), ", "@),
{
    let mut pieces: Vec<String> = Vec::new();
    let mut at: usize = 0;
    while at < seen.len()
        invariant
            at <= seen@.len(),
            pieces@.len() == at,
            forall|i: int|
                0 <= i < at ==> (#[trigger] pieces@[i])@ == ports_seen(sights(seen@))[i],
        decreases seen@.len() - at,
    {
        let mut piece = seen[at].server.clone();
        piece.push_str(" -> :");
        push_decimal(&mut piece, seen[at].mapped.port as u128);
        pieces.push(piece);
        at += 1;
    }
    assert(texts(pieces@) =~= ports_seen(sights(seen@)));
    join_text(&pieces, ", ")
}

/// How an IPv4 connection reaches the internet.
fn classify(result: &FamilyResult) -> (kind: Reach)
    ensures
        kind == reach(result@),
{
    if result.observations.len() == 0 {
        return Reach::Unreachable;
    }
    let mapped = result.observations[0].mapped;
    assert(result@.seen[0].mapped == mapped@);
    if let Ip::V4(ip) = mapped.ip {
        assert(ip4_of(mapped.ip@) == ip);
        if is_shared_address_space(ip) {
            return Reach::Cgnat;
        }
    }
    let no_nat = match &result.local {
        Some(local) => local.same(&mapped.ip),
        None => false,
    };
    if no_nat {
        return Reach::Public;
    }
    if let Ip::V4(ip) = mapped.ip {
        assert(ip4_of(mapped.ip@) == ip);
        if is_private_address(ip) {
            return Reach::DoubleNat;
        }
    }
    if has_one_observer(&result.observations) {
        Reach::Unclassified
    } else if has_one_port(&result.observations) {
        Reach::EndpointIndependent
    } else {
        Reach::AddressDependent
    }
}

/// What an IPv4 connection amounts to.
pub fn describe_v4(result: &FamilyResult) -> (verdict: Verdict)
    requires
        result@.family is V4,
    ensures
        verdict@ == judged_v4(result@),
{
    let kind = classify(result);
    let mut notes: Vec<String> = Vec::new();
    assert(texts(notes@) =~= Seq::<Seq<char>>::empty());
    if result.observations.len() > 0 {
        if let Some(local) = &result.local {
            let mut note = "IPv4: this machine's own address is ".to_owned();
            note.push_str(&local.text());
            add_note(&mut notes, note);
        }
        let mut note = "IPv4: the internet sees this machine as ".to_owned();
        note.push_str(&result.observations[0].mapped.text());
        assert(result@.seen[0].mapped == result.observations@[0].mapped@);
        add_note(&mut notes, note);
    }
    let mut note = kind.meaning_text().to_owned();
    if kind == Reach::AddressDependent {
        note.push_str(&ports_text(&result.observations));
        note.push_str(
            "). This is the hard case — hole punching is unreliable and a relay will usually be needed.",
        );
    }
    assert(note@ == reach_note(result@));
    add_note(&mut notes, note);
    let verdict = Verdict {
        tag: kind.tag_text().to_owned(),
        notes,
        reachable: kind == Reach::Public,
    };
    assert(verdict@.notes =~= judged_v4(result@).notes);
    verdict
}

/// The first global address that a server saw, if any.
pub open spec fn global_seen(seen: Seq<Sight>) -> Option<Seq<u8>>
    decreases seen.len(),
{
    if seen.len() == 0 {
        None
    } else if is_global(seen[0].mapped.0) {
        Some(seen[0].mapped.0)
    } else {
        global_seen(seen.drop_first())
    }
}

/// What an IPv6 connection amounts to.
pub open spec fn judged_v6(found: Findings) -> Judgement {
    match global_seen(found.seen) {
        Some(ip) => Judgement {
            tag: "global"@,
            notes: seq![
                "IPv6: working, with the global address "@ + ip_text(ip),
                "IPv6: this is the outcome that makes the whole NAT question moot. Two peers that both have working IPv6 can address each other directly, with no traversal and no relay."@,
                "IPv6: CANDIDATE, NOT CONFIRMED. Holding a global address means packets could reach this machine; whether they are allowed to is a separate question this probe cannot answer alone. Carrier and device firewalls routinely block incoming IPv6. Confirming it needs a cooperating peer that also has IPv6."@,
            ],
            reachable: true,
        },
        None => Judgement {
            tag: "none"@,
            notes: seq![
                "IPv6: not available on this connection. Every peer connection must therefore survive IPv4 translation."@,
            ],
            reachable: false,
        },
    }
}

fn find_global(seen: &[Observation]) -> (ip: Option<Ip>)
    ensures
        ip_in(ip) == global_seen(sights(seen@)),
{
    let ghost all = sights(seen@);
    let mut at: usize = 0;
    assert(all.skip(0) =~= all);
    while at < seen.len()
        invariant
            at <= seen@.len(),
            all == sights(seen@),
            global_seen(all) == global_seen(all.skip(at as int)),
        decreases seen@.len() - at,
    {
        proof {
            assert(all.skip(at as int)[0] == seen@[at as int]@);
            assert(all.skip(at as int).drop_first() =~= all.skip(at + 1));
        }
        if let Ip::V6(ip) = seen[at].mapped.ip {
            if is_global_unicast_v6(ip) {
                return Some(Ip::V6(ip));
            }
        }
        at += 1;
    }
    None
}

/// What an IPv6 connection amounts to.
pub fn describe_v6(result: &FamilyResult) -> (verdict: Verdict)
    requires
        result@.family is V6,
    ensures
        verdict@ == judged_v6(result@),
{
    let mut notes: Vec<String> = Vec::new();
    assert(texts(notes@) =~= Seq::<Seq<char>>::empty());
    match find_global(&result.observations) {
        Some(ip) => {
            let mut note = "IPv6: working, with the global address ".to_owned();
            note.push_str(&ip.text());
            add_note(&mut notes, note);
            add_note(
                &mut notes,
                "IPv6: this is the outcome that makes the whole NAT question moot. Two peers that both have working IPv6 can address each other directly, with no traversal and no relay.".to_owned(),
            );
            add_note(
                &mut notes,
                "IPv6: CANDIDATE, NOT CONFIRMED. Holding a global address means packets could reach this machine; whether they are allowed to is a separate question this probe cannot answer alone. Carrier and device firewalls routinely block incoming IPv6. Confirming it needs a cooperating peer that also has IPv6.".to_owned(),
            );
            Verdict { tag: "global".to_owned(), notes, reachable: true }
        },
        None => {
            add_note(
                &mut notes,
                "IPv6: not available on this connection. Every peer connection must therefore survive IPv4 translation.".to_owned(),
            );
            Verdict { tag: "none".to_owned(), notes, reachable: false }
        },
    }
}

/// A connection is a candidate for relay duty over IPv4 exactly where the
/// internet sees the machine at its own address, and that is not one of the
/// ISPs' shared range; behind any translation it is not, however good the case.
pub proof fn only_untranslated_connections_may_relay(found: Findings)
    ensures
        judged_v4(found).reachable <==> {
            &&& found.seen.len() > 0
            &&& found.local == Some(found.seen[0].mapped.0)
            &&& !(found.seen[0].mapped.0.len() == 4 && is_shared(ip4_of(found.seen[0].mapped.0)))
        },
{
}

/// Whoever the internet sees in the ISPs' shared range is behind carrier-grade
/// NAT, and carries no relay duty over IPv4, whatever else was found.
pub proof fn the_shared_range_is_carrier_grade_nat(found: Findings)
    requires
        found.seen.len() > 0,
        found.seen[0].mapped.0.len() == 4,
        is_shared(ip4_of(found.seen[0].mapped.0)),
    ensures
        judged_v4(found).tag == "cgnat"@,
        !judged_v4(found).reachable,
{
}

/// Whether an IPv4 address is of a range that is nobody's own: the ISPs' shared
/// one, or one of the private ones.
pub open spec fn is_nobodys(ip: Seq<u8>) -> bool {
    ip.len() == 4 && {
        ||| ip[0] == 100 && 64 <= ip[1] <= 127
        ||| ip[0] == 10
        ||| ip[0] == 172 && 16 <= ip[1] <= 31
        ||| ip[0] == 192 && ip[1] == 168
    }
}

/// Two servers that saw different ports are proof that the port depends on who
/// is contacted: however many others answered, and whatever they saw, it is
/// never the good case.
pub proof fn different_ports_are_never_the_good_case(found: Findings, i: int, j: int)
    requires
        0 <= i < found.seen.len(),
        0 <= j < found.seen.len(),
        found.seen[i].mapped.1 != found.seen[j].mapped.1,
    ensures
        judged_v4(found).tag != "nat-endpoint-independent"@,
{
    lemma_tags();
}

/// The tags differ from one another.
proof fn lemma_tags()
    ensures
        "unreachable"@ != "nat-endpoint-independent"@,
        "public"@ != "nat-endpoint-independent"@,
        "cgnat"@ != "nat-endpoint-independent"@,
        "double-nat"@ != "nat-endpoint-independent"@,
        "nat-unclassified"@ != "nat-endpoint-independent"@,
        "nat-address-dependent"@ != "nat-endpoint-independent"@,
{
    reveal_strlit("unreachable");
    reveal_strlit("public");
    reveal_strlit("cgnat");
    reveal_strlit("double-nat");
    reveal_strlit("nat-unclassified");
    reveal_strlit("nat-endpoint-independent");
    reveal_strlit("nat-address-dependent");
    assert("nat-endpoint-independent"@.len() == 24);
}

/// A translated connection that two servers at different addresses saw is the
/// good case exactly where all of the servers saw the same port, and the hard
/// case otherwise, however many of them there are.
pub proof fn ports_decide_between_the_good_case_and_the_hard_one(found: Findings, i: int, j: int)
    requires
        0 <= i < found.seen.len(),
        0 <= j < found.seen.len(),
        found.seen[i].server_ip != found.seen[j].server_ip,
        found.local != Some(found.seen[0].mapped.0),
        !is_nobodys(found.seen[0].mapped.0),
    ensures
        (forall|a: int, b: int|
            0 <= a < found.seen.len() && 0 <= b < found.seen.len() ==> (
            #[trigger] found.seen[a]).mapped.1 == (#[trigger] found.seen[b]).mapped.1)
            ==> judged_v4(found).tag == "nat-endpoint-independent"@,
        (exists|a: int, b: int|
            0 <= a < found.seen.len() && 0 <= b < found.seen.len() && (
            #[trigger] found.seen[a]).mapped.1 != (#[trigger] found.seen[b]).mapped.1)
            ==> judged_v4(found).tag == "nat-address-dependent"@,
        !judged_v4(found).reachable,
{
    assert(found.seen[i].server_ip != found.seen[0].server_ip || found.seen[j].server_ip
        != found.seen[0].server_ip);
    assert(found.seen[0] == found.seen[0]);
}

/// What can be told without comparing ports: nobody saw the machine, its address
/// is of a range that is nobody's own, it is seen at its own address, or all who
/// saw it stand at one address, so that there is nothing to compare.
pub proof fn what_is_told_without_comparing_ports(found: Findings)
    ensures
        ({
            let tag = judged_v4(found).tag;
            let seen = found.seen;
            let ip = seen[0].mapped.0;
            let own = found.local == Some(ip);
            &&& seen.len() == 0 ==> tag == "unreachable"@
            &&& seen.len() > 0 && ip.len() == 4 && ip[0] == 100 && 64 <= ip[1] <= 127 ==> tag
                == "cgnat"@
            &&& seen.len() > 0 && own && !(ip.len() == 4 && ip[0] == 100 && 64 <= ip[1] <= 127)
                ==> tag == "public"@
            &&& seen.len() > 0 && !own && is_nobodys(ip) && ip[0] != 100 ==> tag == "double-nat"@
            &&& seen.len() > 0 && !own && !is_nobodys(ip) && (forall|i: int, j: int|
                0 <= i < seen.len() && 0 <= j < seen.len() ==> (#[trigger] seen[i]).server_ip == (
                #[trigger] seen[j]).server_ip) ==> tag == "nat-unclassified"@
            &&& judged_v4(found).reachable <==> tag == "public"@
        }),
{
    reveal_strlit("unreachable");
    reveal_strlit("public");
    reveal_strlit("cgnat");
    reveal_strlit("double-nat");
    reveal_strlit("nat-unclassified");
    reveal_strlit("nat-endpoint-independent");
    reveal_strlit("nat-address-dependent");
    assert("public"@.len() == 6 && "cgnat"@.len() == 5 && "unreachable"@.len() == 11);
    if found.seen.len() > 0 {
        assert(found.seen[0] == found.seen[0]);
    }
}

/// In the hard case every server is named with the port that it saw.
pub proof fn the_hard_case_names_every_port(found: Findings, i: int)
    requires
        judged_v4(found).tag == "nat-address-dependent"@,
        0 <= i < found.seen.len(),
    ensures
        ports_seen(found.seen).len() == found.seen.len(),
        ports_seen(found.seen)[i] == found.seen[i].server + " -> :"@ + decimal(
            found.seen[i].mapped.1 as nat,
        ),
        judged_v4(found).notes.last()
            == "IPv4: behind translation that assigns a different external port per destination ("@
            + joined(ports_seen(found.seen), ", "@)
            + "). This is the hard case — hole punching is unreliable and a relay will usually be needed."@,
{
    reveal_strlit("unreachable");
    reveal_strlit("public");
    reveal_strlit("cgnat");
    reveal_strlit("double-nat");
    reveal_strlit("nat-unclassified");
    reveal_strlit("nat-endpoint-independent");
    reveal_strlit("nat-address-dependent");
    assert("nat-address-dependent"@.len() == 21);
}

/// IPv6 works exactly where some server saw a global address: sixteen bytes, the
/// first three bits of which are nought, nought and one. The first such address
/// is the one that is told.
pub proof fn any_global_address_is_working_ipv6(found: Findings)
    ensures
        judged_v6(found).reachable <==> exists|i: int|
            0 <= i < found.seen.len() && is_global_place(#[trigger] found.seen[i]),
        judged_v6(found).tag == if judged_v6(found).reachable {
            "global"@
        } else {
            "none"@
        },
        forall|i: int|
            0 <= i < found.seen.len() && is_global_place(#[trigger] found.seen[i]) && (forall|
                j: int,
            |
                0 <= j < i ==> !is_global_place(#[trigger] found.seen[j]))
                ==> judged_v6(found).notes[0] == "IPv6: working, with the global address "@
                + ip_text(found.seen[i].mapped.0),
{
    let seen = found.seen;
    if exists|i: int| 0 <= i < seen.len() && is_global_place(#[trigger] seen[i]) {
        let i = choose|i: int| 0 <= i < seen.len() && is_global_place(#[trigger] seen[i]);
        let k = lemma_some_global_is_first(seen, i);
        lemma_first_global(seen, k);
    } else {
        lemma_no_global(seen);
    }
    assert forall|i: int|
        0 <= i < seen.len() && is_global_place(#[trigger] seen[i]) && (forall|j: int|
            0 <= j < i ==> !is_global_place(#[trigger] seen[j])) implies judged_v6(found).notes[0]
        == "IPv6: working, with the global address "@ + ip_text(seen[i].mapped.0) by {
        lemma_first_global(seen, i);
    }
}

/// Whether a server saw a global IPv6 address.
pub open spec fn is_global_place(sight: Sight) -> bool {
    sight.mapped.0.len() == 16 && sight.mapped.0[0] / 32 == 1
}

proof fn lemma_first_global(seen: Seq<Sight>, i: int)
    requires
        0 <= i < seen.len(),
        is_global_place(seen[i]),
        forall|j: int| 0 <= j < i ==> !is_global_place(#[trigger] seen[j]),
    ensures
        global_seen(seen) == Some(seen[i].mapped.0),
    decreases i,
{
    if i > 0 {
        let rest = seen.drop_first();
        assert(!is_global_place(seen[0]));
        assert forall|j: int| 0 <= j < i - 1 implies !is_global_place(#[trigger] rest[j]) by {
            assert(rest[j] == seen[j + 1]);
        }
        lemma_first_global(rest, i - 1);
    }
}

proof fn lemma_no_global(seen: Seq<Sight>)
    requires
        forall|j: int| 0 <= j < seen.len() ==> !is_global_place(#[trigger] seen[j]),
    ensures
        global_seen(seen) is None,
    decreases seen.len(),
{
    if seen.len() > 0 {
        let rest = seen.drop_first();
        assert(!is_global_place(seen[0]));
        assert forall|j: int| 0 <= j < rest.len() implies !is_global_place(#[trigger] rest[j]) by {
            assert(rest[j] == seen[j + 1]);
        }
        lemma_no_global(rest);
    }
}

/// Where there is one, there is a first one.
proof fn lemma_some_global_is_first(seen: Seq<Sight>, i: int) -> (k: int)
    requires
        0 <= i < seen.len(),
        is_global_place(seen[i]),
    ensures
        0 <= k <= i,
        is_global_place(seen[k]),
        forall|j: int| 0 <= j < k ==> !is_global_place(#[trigger] seen[j]),
    decreases i,
{
    if exists|j: int| 0 <= j < i && is_global_place(#[trigger] seen[j]) {
        let j = choose|j: int| 0 <= j < i && is_global_place(#[trigger] seen[j]);
        lemma_some_global_is_first(seen, j)
    } else {
        i
    }
}

/// The line to send back says what either family amounts to, and that the
/// machine may relay exactly where one of them says so.
pub proof fn the_summary_says_it_all(v4: Findings, v6: Findings)
    ensures
        report_text(v4, v6).last() == "PROBE v0.1 | ipv4="@ + judged_v4(v4).tag + " | ipv6="@
            + judged_v6(v6).tag + " | relay-candidate="@ + (if judged_v4(v4).reachable
            || judged_v6(v6).reachable {
            "yes"@
        } else {
            "no"@
        }),
        forall|i: int|
            0 <= i < judged_v4(v4).notes.len() ==> report_text(v4, v6).contains(
                "  "@ + #[trigger] judged_v4(v4).notes[i],
            ),
        forall|i: int|
            0 <= i < judged_v6(v6).notes.len() ==> report_text(v4, v6).contains(
                "  "@ + #[trigger] judged_v6(v6).notes[i],
            ),
{
    let all = report_text(v4, v6);
    let (four, six) = (judged_v4(v4).notes, judged_v6(v6).notes);
    assert forall|i: int| 0 <= i < four.len() implies all.contains("  "@ + #[trigger] four[i]) by {
        assert(all[2 + i] == "  "@ + four[i]);
    }
    assert forall|i: int| 0 <= i < six.len() implies all.contains("  "@ + #[trigger] six[i]) by {
        assert(all[2 + four.len() + i] == "  "@ + six[i]);
    }
}

/// What is said to a person, line by line.
pub open spec fn report_text(v4: Findings, v6: Findings) -> Seq<Seq<char>> {
    let (four, six) = (judged_v4(v4), judged_v6(v6));
    let told = four.notes + six.notes;
    seq!["What this means"@, "---------------"@] + Seq::new(
        told.len(),
        |i: int| "  "@ + told[i],
    ) + seq![
        Seq::empty(),
        "Please send back the line below."@,
        Seq::empty(),
        "PROBE v0.1 | ipv4="@ + four.tag + " | ipv6="@ + six.tag + " | relay-candidate="@ + if four.reachable
            || six.reachable {
            "yes"@
        } else {
            "no"@
        },
    ]
}

fn add_notes(lines: &mut Vec<String>, notes: &[String])
    ensures
        texts(final(lines)@) == texts(old(lines)@) + Seq::new(
            notes@.len(),
            |i: int| "  "@ + texts(notes@)[i],
        ),
{
    let ghost head = texts(lines@);
    let ghost told = Seq::new(notes@.len(), |i: int| "  "@ + texts(notes@)[i]);
    let mut at: usize = 0;
    assert(texts(lines@) =~= head + told.take(0));
    while at < notes.len()
        invariant
            at <= notes@.len(),
            told == Seq::new(notes@.len(), |i: int| "  "@ + texts(notes@)[i]),
            texts(lines@) == head + told.take(at as int),
        decreases notes@.len() - at,
    {
        let mut line = "  ".to_owned();
        line.push_str(&notes[at]);
        proof {
            assert(told.take(at + 1) =~= told.take(at as int).push(told[at as int]));
        }
        add_note(lines, line);
        assert(texts(lines@) =~= head + told.take(at + 1));
        at += 1;
    }
    assert(told.take(at as int) =~= told);
}

/// What to say to a person, line by line.
pub fn report(v4: &FamilyResult, v6: &FamilyResult) -> (lines: Vec<String>)
    requires
        v4@.family is V4,
        v6@.family is V6,
    ensures
        texts(lines@) == report_text(v4@, v6@),
{
    let four = describe_v4(v4);
    let six = describe_v6(v6);
    let mut lines: Vec<String> = Vec::new();
    assert(texts(lines@) =~= Seq::<Seq<char>>::empty());
    add_note(&mut lines, "What this means".to_owned());
    add_note(&mut lines, "---------------".to_owned());
    add_notes(&mut lines, &four.notes);
    add_notes(&mut lines, &six.notes);
    add_note(&mut lines, String::new());
    add_note(&mut lines, "Please send back the line below.".to_owned());
    add_note(&mut lines, String::new());
    let mut summary = "PROBE v0.1 | ipv4=".to_owned();
    summary.push_str(&four.tag);
    summary.push_str(" | ipv6=");
    summary.push_str(&six.tag);
    summary.push_str(" | relay-candidate=");
    summary.push_str(
        if four.reachable || six.reachable {
            "yes"
        } else {
            "no"
        },
    );
    add_note(&mut lines, summary);
    assert(texts(lines@) =~= report_text(v4@, v6@));
    lines
}

/// Text between quotes, as the probe writes it: the line feed, the return and
/// the tab have names.
pub fn json_string(raw: &str) -> (text: String)
    ensures
        text@ == quoted(raw@, true),
{
    quote(raw, true)
}

/// What each server saw, as JSON has it.
pub open spec fn observers_json(seen: Seq<Sight>) -> Seq<Seq<char>> {
    Seq::new(
        seen.len(),
        |i: int|
            "{\"server\":"@ + quoted(seen[i].server, true) + ",\"mapped\":"@ + quoted(
                place_text(seen[i].mapped),
                true,
            ) + "}"@,
    )
}

/// Texts between quotes.
pub open spec fn all_quoted(raw: Seq<Seq<char>>) -> Seq<Seq<char>> {
    Seq::new(raw.len(), |i: int| quoted(raw[i], true))
}

/// Text between quotes, or the word for nothing.
pub open spec fn quoted_or_null(raw: Option<Seq<char>>) -> Seq<char> {
    match raw {
        Some(raw) => quoted(raw, true),
        None => "null"@,
    }
}

/// One family in a record.
pub open spec fn family_record(found: Findings, tag: Seq<char>) -> Seq<char> {
    "{\"tag\":"@ + quoted(tag, true) + ",\"local\":"@ + quoted_or_null(
        match found.local {
            Some(ip) => Some(ip_text(ip)),
            None => None,
        },
    ) + ",\"observers\":["@ + joined(observers_json(found.seen), ","@) + "],\"errors\":["@
        + joined(all_quoted(found.errors), ","@) + "]}"@
}

/// One family in a record.
pub fn family_json(result: &FamilyResult, verdict: &Verdict) -> (text: String)
    ensures
        text@ == family_record(result@, verdict@.tag),
{
    let mut observers: Vec<String> = Vec::new();
    let mut at: usize = 0;
    while at < result.observations.len()
        invariant
            at <= result.observations@.len(),
            observers@.len() == at,
            forall|i: int|
                0 <= i < at ==> (#[trigger] observers@[i])@ == observers_json(result@.seen)[i],
        decreases result.observations@.len() - at,
    {
        let mut piece = "{\"server\":".to_owned();
        piece.push_str(&json_string(&result.observations[at].server));
        piece.push_str(",\"mapped\":");
        piece.push_str(&json_string(&result.observations[at].mapped.text()));
        piece.push_str("}");
        observers.push(piece);
        at += 1;
    }
    assert(texts(observers@) =~= observers_json(result@.seen));
    let mut errors: Vec<String> = Vec::new();
    at = 0;
    while at < result.errors.len()
        invariant
            at <= result.errors@.len(),
            errors@.len() == at,
            forall|i: int|
                0 <= i < at ==> (#[trigger] errors@[i])@ == all_quoted(result@.errors)[i],
        decreases result.errors@.len() - at,
    {
        errors.push(json_string(&result.errors[at]));
        at += 1;
    }
    assert(texts(errors@) =~= all_quoted(result@.errors));
    let mut text = "{\"tag\":".to_owned();
    text.push_str(&json_string(&verdict.tag));
    text.push_str(",\"local\":");
    match &result.local {
        Some(ip) => text.push_str(&json_string(&ip.text())),
        None => text.push_str("null"),
    }
    text.push_str(",\"observers\":[");
    text.push_str(&join_text(&observers, ","));
    text.push_str("],\"errors\":[");
    text.push_str(&join_text(&errors, ","));
    text.push_str("]}");
    text
}

/// A record of what a connection can do.
pub open spec fn connectivity_record(
    label: Seq<char>,
    v4: Findings,
    v6: Findings,
    epoch: u64,
    stamp: Seq<char>,
) -> Seq<char> {
    let (four, six) = (judged_v4(v4), judged_v6(v6));
    "{"@ + "\"schema\":1,\"ts_unix\":"@ + decimal(epoch as nat) + ","@ + "\"ts_utc\":\""@ + stamp
        + "\","@ + "\"label\":"@ + quoted(label, true) + ","@ + "\"test\":\"connectivity\","@
        + "\"ipv4\":"@ + family_record(v4, four.tag) + ","@ + "\"ipv6\":"@ + family_record(
        v6,
        six.tag,
    ) + ","@ + "\"relay_candidate\":"@ + if four.reachable || six.reachable {
        "true"@
    } else {
        "false"@
    } + "}"@
}

/// A record of what a connection can do, made `epoch` seconds after the start of
/// 1970.
pub fn report_record(label: &str, v4: &FamilyResult, v6: &FamilyResult, epoch: u64) -> (text: String)
    requires
        v4@.family is V4,
        v6@.family is V6,
    ensures
        exists|stamp: Seq<char>| #[trigger]
            is_stamp(stamp, epoch) && text@ == connectivity_record(
                label@,
                v4@,
                v6@,
                epoch,
                stamp,
            ),
{
    let four = describe_v4(v4);
    let six = describe_v6(v6);
    let stamp = format_utc(epoch);
    assert(is_stamp(stamp@, epoch));
    let mut text = "{".to_owned();
    text.push_str("\"schema\":1,\"ts_unix\":");
    push_decimal(&mut text, epoch as u128);
    text.push_str(",");
    text.push_str("\"ts_utc\":\"");
    text.push_str(&stamp);
    text.push_str("\",");
    text.push_str("\"label\":");
    text.push_str(&json_string(label));
    text.push_str(",");
    text.push_str("\"test\":\"connectivity\",");
    text.push_str("\"ipv4\":");
    text.push_str(&family_json(v4, &four));
    text.push_str(",");
    text.push_str("\"ipv6\":");
    text.push_str(&family_json(v6, &six));
    text.push_str(",");
    text.push_str("\"relay_candidate\":");
    text.push_str(
        if four.reachable || six.reachable {
            "true"
        } else {
            "false"
        },
    );
    text.push_str("}");
    assert(text@ == connectivity_record(label@, v4@, v6@, epoch, stamp@));
    text
}

/// A record of what a connection can do, made now.
pub fn report_json(label: &str, v4: &FamilyResult, v6: &FamilyResult) -> (text: String)
    requires
        v4@.family is V4,
        v6@.family is V6,
    ensures
        exists|epoch: u64, stamp: Seq<char>| #[trigger]
            is_stamp(stamp, epoch) && may_be_now(epoch) && text@ == connectivity_record(
                label@,
                v4@,
                v6@,
                epoch,
                stamp,
            ),
{
    report_record(label, v4, v6, now_seconds())
}

/// One family's part of the record holds its verdict, every server with what it
/// saw, every failure, and this machine's own address where it is known.
pub proof fn a_family_is_recorded(found: Findings, tag: Seq<char>, i: int)
    ensures
        holds_part(family_record(found, tag), "\"tag\":"@ + quoted(tag, true)),
        found.local matches Some(ip) ==> holds_part(
            family_record(found, tag),
            "\"local\":"@ + quoted(ip_text(ip), true),
        ),
        0 <= i < found.seen.len() ==> holds_part(
            joined(observers_json(found.seen), ","@),
            "{\"server\":"@ + quoted(found.seen[i].server, true) + ",\"mapped\":"@ + quoted(
                place_text(found.seen[i].mapped),
                true,
            ) + "}"@,
        ),
        0 <= i < found.errors.len() ==> holds_part(
            joined(all_quoted(found.errors), ","@),
            quoted(found.errors[i], true),
        ),
        holds_part(
            family_record(found, tag),
            "\"observers\":["@ + joined(observers_json(found.seen), ","@) + "],\"errors\":["@
                + joined(all_quoted(found.errors), ","@) + "]"@,
        ),
{
    reveal_strlit("{\"tag\":");
    reveal_strlit("\"tag\":");
    reveal_strlit(",\"local\":");
    reveal_strlit("\"local\":");
    reveal_strlit(",\"observers\":[");
    reveal_strlit("\"observers\":[");
    reveal_strlit("]}");
    reveal_strlit("]");
    let all = family_record(found, tag);
    let own = quoted_or_null(
        match found.local {
            Some(ip) => Some(ip_text(ip)),
            None => None,
        },
    );
    let (seen, errors) = (
        joined(observers_json(found.seen), ","@),
        joined(all_quoted(found.errors), ","@),
    );
    let tagged = "\"tag\":"@ + quoted(tag, true);
    let local = "\"local\":"@ + own;
    let lists = "\"observers\":["@ + seen + "],\"errors\":["@ + errors + "]"@;
    assert(all =~= seq!['{'] + tagged + (seq![','] + local + seq![','] + lists + seq!['}']));
    crate::text::a_part_is_held(
        seq!['{'],
        tagged,
        seq![','] + local + seq![','] + lists + seq!['}'],
    );
    assert(all =~= (seq!['{'] + tagged + seq![',']) + local + (seq![','] + lists + seq!['}']));
    crate::text::a_part_is_held(
        seq!['{'] + tagged + seq![','],
        local,
        seq![','] + lists + seq!['}'],
    );
    assert(all =~= (seq!['{'] + tagged + seq![','] + local + seq![',']) + lists + seq!['}']);
    crate::text::a_part_is_held(
        seq!['{'] + tagged + seq![','] + local + seq![','],
        lists,
        seq!['}'],
    );
    if 0 <= i < found.seen.len() {
        crate::text::joining_holds_every_piece(observers_json(found.seen), ","@, i);
    }
    if 0 <= i < found.errors.len() {
        crate::text::joining_holds_every_piece(all_quoted(found.errors), ","@, i);
    }
}

/// The record of a connection holds when it was made, whose it is, both families
/// with their verdicts, and whether the machine may relay.
pub proof fn a_connection_is_recorded(
    label: Seq<char>,
    v4: Findings,
    v6: Findings,
    epoch: u64,
    stamp: Seq<char>,
)
    ensures
        ({
            let all = connectivity_record(label, v4, v6, epoch, stamp);
            let relay = judged_v4(v4).reachable || judged_v6(v6).reachable;
            &&& holds_part(all, "\"ts_unix\":"@ + decimal(epoch as nat) + ","@)
            &&& holds_part(all, "\"ts_utc\":\""@ + stamp + "\","@)
            &&& holds_part(all, "\"label\":"@ + quoted(label, true))
            &&& holds_part(all, "\"ipv4\":"@ + family_record(v4, judged_v4(v4).tag))
            &&& holds_part(all, "\"ipv6\":"@ + family_record(v6, judged_v6(v6).tag))
            &&& holds_part(
                all,
                "\"relay_candidate\":"@ + if relay { "true"@ } else { "false"@ },
            )
        }),
{
    reveal_strlit("\"schema\":1,\"ts_unix\":");
    reveal_strlit("\"ts_unix\":");
    let (four, six) = (judged_v4(v4), judged_v6(v6));
    let yes = if four.reachable || six.reachable { "true"@ } else { "false"@ };
    let r0 = "{"@;
    let r1 = r0 + "\"schema\":1,\"ts_unix\":"@;
    let r2 = r1 + decimal(epoch as nat);
    let r3 = r2 + ","@;
    let r4 = r3 + "\"ts_utc\":\""@;
    let r5 = r4 + stamp;
    let r6 = r5 + "\","@;
    let r7 = r6 + "\"label\":"@;
    let r8 = r7 + quoted(label, true);
    let r9 = r8 + ","@;
    let r10 = r9 + "\"test\":\"connectivity\","@;
    let r11 = r10 + "\"ipv4\":"@;
    let r12 = r11 + family_record(v4, four.tag);
    let r13 = r12 + ","@;
    let r14 = r13 + "\"ipv6\":"@;
    let r15 = r14 + family_record(v6, six.tag);
    let r16 = r15 + ","@;
    let r17 = r16 + "\"relay_candidate\":"@;
    let r18 = r17 + yes;
    let r19 = r18 + "}"@;
    assert(r19 == connectivity_record(label, v4, v6, epoch, stamp));
    let made = "\"ts_unix\":"@ + decimal(epoch as nat) + ","@;
    let schema = "\"schema\":1,\"ts_unix\":"@.take(11);
    assert(r3 =~= ("{"@ + schema) + made);
    lemma_ends_with("{"@ + schema, made);
    assert(r6 =~= r3 + ("\"ts_utc\":\""@ + stamp + "\","@));
    lemma_ends_with(r3, "\"ts_utc\":\""@ + stamp + "\","@);
    crate::text::writing_on_keeps_the_parts(r0, "\"schema\":1,\"ts_unix\":"@, decimal(epoch as nat));
    crate::text::writing_on_keeps_the_parts(r1, decimal(epoch as nat), ","@);
    crate::text::writing_on_keeps_the_parts(r2, ","@, "\"ts_utc\":\""@);
    crate::text::writing_on_keeps_the_parts(r3, "\"ts_utc\":\""@, stamp);
    crate::text::writing_on_keeps_the_parts(r4, stamp, "\","@);
    crate::text::writing_on_keeps_the_parts(r5, "\","@, "\"label\":"@);
    crate::text::writing_on_keeps_the_parts(r6, "\"label\":"@, quoted(label, true));
    crate::text::writing_on_keeps_the_parts(r7, quoted(label, true), ","@);
    crate::text::writing_on_keeps_the_parts(r8, ","@, "\"test\":\"connectivity\","@);
    crate::text::writing_on_keeps_the_parts(r9, "\"test\":\"connectivity\","@, "\"ipv4\":"@);
    crate::text::writing_on_keeps_the_parts(r10, "\"ipv4\":"@, family_record(v4, four.tag));
    crate::text::writing_on_keeps_the_parts(r11, family_record(v4, four.tag), ","@);
    crate::text::writing_on_keeps_the_parts(r12, ","@, "\"ipv6\":"@);
    crate::text::writing_on_keeps_the_parts(r13, "\"ipv6\":"@, family_record(v6, six.tag));
    crate::text::writing_on_keeps_the_parts(r14, family_record(v6, six.tag), ","@);
    crate::text::writing_on_keeps_the_parts(r15, ","@, "\"relay_candidate\":"@);
    crate::text::writing_on_keeps_the_parts(r16, "\"relay_candidate\":"@, yes);
    crate::text::writing_on_keeps_the_parts(r17, yes, "}"@);
    crate::text::writing_on_keeps_the_parts(r18, "}"@, Seq::empty());
}

proof fn lemma_ends_with(text: Seq<char>, part: Seq<char>)
    ensures
        holds_part(text + part, part),
{
    crate::text::a_part_is_held(text, part, Seq::empty());
    assert(text + part + Seq::<char>::empty() =~= text + part);
}

/// A server's name in its column is followed by as many blanks as it takes to make
/// the column thirty-one wide.
pub proof fn columns_are_even(server: Seq<char>)
    ensures
        server.len() <= 28 ==> column(server).len() == 31,
        column(server).len() >= 3 + server.len(),
        column(server).subrange(2, 2 + server.len() as int) == server,
{
    reveal_strlit("  ");
    reveal_strlit(" ");
    assert(column(server).subrange(2, 2 + server.len() as int) =~= server);
}

/// Whoever was seen is told where: at the address and port that the first server
/// saw, beside this machine's own address where that is known; and then, once,
/// what that means.
pub proof fn whoever_was_seen_is_told_where(found: Findings)
    requires
        found.seen.len() > 0,
    ensures
        ({
            let notes = judged_v4(found).notes;
            let seen = "IPv4: the internet sees this machine as "@ + place_text(
                found.seen[0].mapped,
            );
            &&& found.local is None ==> notes.len() == 2 && notes[0] == seen
            &&& found.local matches Some(ip) ==> {
                &&& notes.len() == 3
                &&& notes[0] == "IPv4: this machine's own address is "@ + ip_text(ip)
                &&& notes[1] == seen
            }
            &&& !(reach(found) is AddressDependent) ==> notes.last() == reach(found).meaning()
        }),
        judged_v4(Findings { seen: Seq::empty(), ..found }).notes.len() == 1,
{
}

} // verus!
