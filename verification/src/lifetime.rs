//! Whether a home router still remembers an idle connection.
//!
//! A router rewrites outgoing packets to its own address and remembers the
//! pairing so replies can be delivered. That memory expires, and when it does a
//! peer-to-peer connection dies silently. The method: learn the external port,
//! say nothing at all for a while, then ask the same server again through the
//! same socket. An unchanged port means the mapping survived.
use crate::addr::{place_in, place_text, Endpoint, Place};
use crate::chance::{may_be_now, now_seconds, random_word, unforeseen};
use crate::clock::{format_utc, is_stamp};
use crate::json::quoted;
use crate::text::{decimal, holds_part, push_decimal, texts};
use crate::verdict::{json_string, quoted_or_null};
use vstd::prelude::*;

verus! {

/// The idle intervals, in seconds, that the test chooses from.
///
/// Each run tests exactly one of these, and the answer accumulates over days as
/// every interval gets tried many times. One interval per run means a failed run
/// costs one data point.
pub const IDLE_INTERVALS: [u64; 11] = [15, 30, 45, 60, 90, 120, 180, 240, 300, 420, 600];

/// The interval that a draw chooses.
pub fn interval_for(draw: u64) -> (seconds: u64)
    ensures
        seconds == IDLE_INTERVALS@[(draw % 11) as int],
        IDLE_INTERVALS@.contains(seconds),
{
    let list = IDLE_INTERVALS;
    let at = (draw % 11) as usize;
    assert(IDLE_INTERVALS@[at as int] == list@[at as int]);
    list[at]
}

/// Chooses one interval at random.
///
/// Stateless deliberately: coverage comes from repetition across days rather
/// than from bookkeeping.
pub fn pick_idle_interval() -> (seconds: u64)
    ensures
        IDLE_INTERVALS@.contains(seconds),
        exists|word: u64| #[trigger]
            unforeseen(0, word) && seconds == IDLE_INTERVALS@[(word % 11) as int],
{
    interval_for(random_word(0))
}

/// What became of a mapping after a period of silence.
#[derive(PartialEq, Debug)]
pub enum Outcome {
    /// The router still remembered. The mesh can idle this long safely.
    Survived,
    /// The router forgot. A connection idle this long would have died silently.
    Expired,
    /// Something else changed underneath the test, so it proves nothing.
    Inconclusive(&'static str),
}

/// What became of a mapping, as values.
#[verifier::ext_equal]
pub enum Fate {
    Survived,
    Expired,
    Inconclusive(Seq<char>),
}

impl View for Outcome {
    type V = Fate;

    open spec fn view(&self) -> Fate {
        match self {
            Outcome::Survived => Fate::Survived,
            Outcome::Expired => Fate::Expired,
            Outcome::Inconclusive(why) => Fate::Inconclusive(why@),
        }
    }
}

impl Fate {
    /// What it is called in a record.
    pub open spec fn tag(self) -> Seq<char> {
        match self {
            Fate::Survived => "survived"@,
            Fate::Expired => "expired"@,
            Fate::Inconclusive(_) => "inconclusive"@,
        }
    }
}

impl Outcome {
    /// What it is called in a record.
    pub fn tag(&self) -> (tag: &'static str)
        ensures
            tag@ == self@.tag(),
    {
        match self {
            Outcome::Survived => "survived",
            Outcome::Expired => "expired",
            Outcome::Inconclusive(_) => "inconclusive",
        }
    }
}

/// One test.
pub struct MappingTest {
    pub idle_seconds: u64,
    pub server: String,
    pub first: Option<Endpoint>,
    pub second: Option<Endpoint>,
    pub outcome: Outcome,
}

/// One test, as values.
#[verifier::ext_equal]
pub struct Trial {
    pub idle_seconds: u64,
    pub server: Seq<char>,
    pub first: Option<Place>,
    pub second: Option<Place>,
    pub fate: Fate,
}

impl View for MappingTest {
    type V = Trial;

    open spec fn view(&self) -> Trial {
        Trial {
            idle_seconds: self.idle_seconds,
            server: self.server@,
            first: place_in(self.first),
            second: place_in(self.second),
            fate: self.outcome@,
        }
    }
}

/// What two sights of this machine, before and after the silence, mean. A changed
/// public address means the ISP moved us, which would look identical to an
/// expired mapping while proving nothing about the router.
pub open spec fn fate_of(first: Place, second: Place) -> Fate {
    if first.0 != second.0 {
        Fate::Inconclusive("public address changed mid-test"@)
    } else if first.1 == second.1 {
        Fate::Survived
    } else {
        Fate::Expired
    }
}

/// How far a test got.
pub enum Found {
    /// No socket could be opened.
    NoSocket,
    /// No server answered the first query.
    NoServer,
    /// A server answered the first query and not the second.
    Silence { server: String, first: Endpoint },
    /// A server answered both. Both observations come from the same server: under
    /// address-dependent mapping a different one sees a different port anyway.
    Both { server: String, first: Endpoint, second: Endpoint },
}

/// What a test comes to that got this far.
pub open spec fn concluded(idle_seconds: u64, found: Found) -> Trial {
    match found {
        Found::NoSocket => Trial {
            idle_seconds,
            server: "-"@,
            first: None,
            second: None,
            fate: Fate::Inconclusive("cannot open a socket"@),
        },
        Found::NoServer => Trial {
            idle_seconds,
            server: "-"@,
            first: None,
            second: None,
            fate: Fate::Inconclusive("no STUN server answered"@),
        },
        Found::Silence { server, first } => Trial {
            idle_seconds,
            server: server@,
            first: Some(first@),
            second: None,
            fate: Fate::Inconclusive("no reply to the second query"@),
        },
        Found::Both { server, first, second } => Trial {
            idle_seconds,
            server: server@,
            first: Some(first@),
            second: Some(second@),
            fate: fate_of(first@, second@),
        },
    }
}

/// What a test comes to that got this far.
pub fn conclude(idle_seconds: u64, found: Found) -> (test: MappingTest)
    ensures
        test@ == concluded(idle_seconds, found),
{
    match found {
        Found::NoSocket => MappingTest {
            idle_seconds,
            server: "-".to_owned(),
            first: None,
            second: None,
            outcome: Outcome::Inconclusive("cannot open a socket"),
        },
        Found::NoServer => MappingTest {
            idle_seconds,
            server: "-".to_owned(),
            first: None,
            second: None,
            outcome: Outcome::Inconclusive("no STUN server answered"),
        },
        Found::Silence { server, first } => MappingTest {
            idle_seconds,
            server,
            first: Some(first),
            second: None,
            outcome: Outcome::Inconclusive("no reply to the second query"),
        },
        Found::Both { server, first, second } => {
            let outcome = if !first.ip.same(&second.ip) {
                Outcome::Inconclusive("public address changed mid-test")
            } else if first.port == second.port {
                Outcome::Survived
            } else {
                Outcome::Expired
            };
            MappingTest { idle_seconds, server, first: Some(first), second: Some(second), outcome }
        },
    }
}

/// A mapping is said to have survived exactly where the very same address and
/// port were seen before and after.
pub proof fn survival_means_nothing_changed(first: Place, second: Place)
    ensures
        fate_of(first, second) is Survived <==> first.0 == second.0 && first.1 == second.1,
        fate_of(first, second) is Expired <==> first.0 == second.0 && first.1 != second.1,
{
}

/// What is said to a person, line by line.
pub open spec fn trial_text(t: Trial) -> Seq<Seq<char>> {
    let idle = decimal(t.idle_seconds as nat);
    let said = match t.fate {
        Fate::Survived => "After "@ + idle
            + "s of silence the router still remembered this connection."@,
        Fate::Expired => "After "@ + idle
            + "s of silence the router had forgotten this connection.\nA peer-to-peer connection left idle that long would have died without warning."@,
        Fate::Inconclusive(why) => "Inconclusive after "@ + idle + "s: "@ + why + "."@,
    };
    let shown = if t.first is Some && t.second is Some {
        seq!["  before: "@ + place_text(t.first->0) + "\n  after:  "@ + place_text(t.second->0)]
    } else {
        Seq::empty()
    };
    seq![Seq::empty(), said] + shown + seq![
        Seq::empty(),
        "PROBE-MAPPING v0.1 | idle="@ + idle + "s | outcome="@ + t.fate.tag(),
    ]
}

fn add_line(lines: &mut Vec<String>, line: String)
    ensures
        texts(final(lines)@) == texts(old(lines)@).push(line@),
{
    lines.push(line);
    assert(texts(lines@) =~= texts(old(lines)@).push(line@));
}

/// What to say to a person, line by line.
pub fn report_mapping(test: &MappingTest) -> (lines: Vec<String>)
    ensures
        texts(lines@) == trial_text(test@),
{
    let mut lines: Vec<String> = Vec::new();
    assert(texts(lines@) =~= Seq::<Seq<char>>::empty());
    add_line(&mut lines, String::new());
    let said = match &test.outcome {
        Outcome::Survived => {
            let mut said = "After ".to_owned();
            push_decimal(&mut said, test.idle_seconds as u128);
            said.push_str("s of silence the router still remembered this connection.");
            said
        },
        Outcome::Expired => {
            let mut said = "After ".to_owned();
            push_decimal(&mut said, test.idle_seconds as u128);
            said.push_str(
                "s of silence the router had forgotten this connection.\nA peer-to-peer connection left idle that long would have died without warning.",
            );
            said
        },
        Outcome::Inconclusive(why) => {
            let mut said = "Inconclusive after ".to_owned();
            push_decimal(&mut said, test.idle_seconds as u128);
            said.push_str("s: ");
            said.push_str(why);
            said.push_str(".");
            said
        },
    };
    add_line(&mut lines, said);
    if let (Some(first), Some(second)) = (&test.first, &test.second) {
        let mut shown = "  before: ".to_owned();
        shown.push_str(&first.text());
        shown.push_str("\n  after:  ");
        shown.push_str(&second.text());
        add_line(&mut lines, shown);
    }
    add_line(&mut lines, String::new());
    let mut summary = "PROBE-MAPPING v0.1 | idle=".to_owned();
    push_decimal(&mut summary, test.idle_seconds as u128);
    summary.push_str("s | outcome=");
    summary.push_str(test.outcome.tag());
    add_line(&mut lines, summary);
    assert(texts(lines@) =~= trial_text(test@));
    lines
}

/// An endpoint between quotes, or the word for nothing.
pub open spec fn place_json(place: Option<Place>) -> Seq<char> {
    quoted_or_null(
        match place {
            Some(place) => Some(place_text(place)),
            None => None,
        },
    )
}

/// A record of one test.
pub open spec fn trial_record(label: Seq<char>, t: Trial, epoch: u64, stamp: Seq<char>) -> Seq<char> {
    "{\"schema\":1,\"ts_unix\":"@ + decimal(epoch as nat) + ",\"ts_utc\":"@ + quoted(stamp, true)
        + ",\"label\":"@ + quoted(label, true)
        + ",\"test\":\"mapping-lifetime\",\"idle_seconds\":"@ + decimal(t.idle_seconds as nat)
        + ",\"server\":"@ + quoted(t.server, true) + ",\"first\":"@ + place_json(t.first)
        + ",\"second\":"@ + place_json(t.second) + ",\"outcome\":"@ + quoted(t.fate.tag(), true)
        + ",\"note\":"@ + match t.fate {
        Fate::Inconclusive(why) => quoted(why, true),
        _ => "null"@,
    } + "}"@
}

fn place_json_text(place: &Option<Endpoint>) -> (text: String)
    ensures
        text@ == place_json(place_in(*place)),
{
    match place {
        Some(place) => json_string(&place.text()),
        None => "null".to_owned(),
    }
}

/// A record of one test, made `epoch` seconds after the start of 1970.
pub fn mapping_record(label: &str, test: &MappingTest, epoch: u64) -> (text: String)
    ensures
        exists|stamp: Seq<char>| #[trigger]
            is_stamp(stamp, epoch) && text@ == trial_record(label@, test@, epoch, stamp),
{
    let stamp = format_utc(epoch);
    assert(is_stamp(stamp@, epoch));
    let note = match &test.outcome {
        Outcome::Inconclusive(why) => json_string(why),
        _ => "null".to_owned(),
    };
    let mut text = "{\"schema\":1,\"ts_unix\":".to_owned();
    push_decimal(&mut text, epoch as u128);
    text.push_str(",\"ts_utc\":");
    text.push_str(&json_string(&stamp));
    text.push_str(",\"label\":");
    text.push_str(&json_string(label));
    text.push_str(",\"test\":\"mapping-lifetime\",\"idle_seconds\":");
    push_decimal(&mut text, test.idle_seconds as u128);
    text.push_str(",\"server\":");
    text.push_str(&json_string(&test.server));
    text.push_str(",\"first\":");
    text.push_str(&place_json_text(&test.first));
    text.push_str(",\"second\":");
    text.push_str(&place_json_text(&test.second));
    text.push_str(",\"outcome\":");
    text.push_str(&json_string(test.outcome.tag()));
    text.push_str(",\"note\":");
    text.push_str(&note);
    text.push_str("}");
    assert(text@ == trial_record(label@, test@, epoch, stamp@));
    text
}

/// A record of one test, made now.
pub fn mapping_json(label: &str, test: &MappingTest) -> (text: String)
    ensures
        exists|epoch: u64, stamp: Seq<char>| #[trigger]
            is_stamp(stamp, epoch) && may_be_now(epoch) && text@ == trial_record(
                label@,
                test@,
                epoch,
                stamp,
            ),
{
    mapping_record(label, test, now_seconds())
}

/// What is concluded goes by what was seen before and after the silence: the same
/// address and port mean that the mapping survived, another port at the same
/// address that it expired, and anything else, an answer missing or another
/// address, proves nothing. What was tested, where and what was seen is kept.
pub proof fn only_two_sights_of_one_address_prove_anything(idle: u64, found: Found)
    ensures
        ({
            let t = concluded(idle, found);
            &&& t.idle_seconds == idle
            &&& match found {
                Found::Both { server, first, second } => {
                    &&& t.server == server@
                    &&& t.first == Some(first@) && t.second == Some(second@)
                    &&& first.ip@ == second.ip@ && first.port == second.port ==> t.fate.tag()
                        == "survived"@
                    &&& first.ip@ == second.ip@ && first.port != second.port ==> t.fate.tag()
                        == "expired"@
                    &&& first.ip@ != second.ip@ ==> t.fate == Fate::Inconclusive(
                        "public address changed mid-test"@,
                    ) && t.fate.tag() == "inconclusive"@
                },
                Found::Silence { server, first } => {
                    &&& t.server == server@
                    &&& t.first == Some(first@) && t.second is None
                    &&& t.fate == Fate::Inconclusive("no reply to the second query"@)
                },
                Found::NoServer => {
                    &&& t.server == "-"@ && t.first is None && t.second is None
                    &&& t.fate == Fate::Inconclusive("no STUN server answered"@)
                },
                Found::NoSocket => {
                    &&& t.server == "-"@ && t.first is None && t.second is None
                    &&& t.fate == Fate::Inconclusive("cannot open a socket"@)
                },
            }
        }),
{
}

/// What a person is told of a test ends with the line to send back, which says how
/// long the silence was and what became of the mapping; and where two sights were
/// had, both are shown.
pub proof fn a_test_is_told(t: Trial)
    ensures
        trial_text(t).last() == "PROBE-MAPPING v0.1 | idle="@ + decimal(t.idle_seconds as nat)
            + "s | outcome="@ + t.fate.tag(),
        t.first is Some && t.second is Some ==> trial_text(t).contains(
            "  before: "@ + place_text(t.first->0) + "\n  after:  "@ + place_text(t.second->0),
        ),
        t.fate matches Fate::Inconclusive(why) ==> trial_text(t)[1] == "Inconclusive after "@
            + decimal(t.idle_seconds as nat) + "s: "@ + why + "."@,
        t.fate is Survived ==> trial_text(t)[1] == "After "@ + decimal(t.idle_seconds as nat)
            + "s of silence the router still remembered this connection."@,
{
    if t.first is Some && t.second is Some {
        assert(trial_text(t)[2] == "  before: "@ + place_text(t.first->0) + "\n  after:  "@
            + place_text(t.second->0));
    }
}

/// The record of a test holds how long the silence was, which server was asked,
/// both sights, and what became of the mapping.
pub proof fn a_test_is_recorded(label: Seq<char>, t: Trial, epoch: u64, stamp: Seq<char>)
    ensures
        ({
            let all = trial_record(label, t, epoch, stamp);
            &&& holds_part(all, ",\"ts_utc\":"@ + quoted(stamp, true))
            &&& holds_part(all, ",\"label\":"@ + quoted(label, true))
            &&& holds_part(
                all,
                ",\"test\":\"mapping-lifetime\",\"idle_seconds\":"@ + decimal(
                    t.idle_seconds as nat,
                ),
            )
            &&& holds_part(all, ",\"server\":"@ + quoted(t.server, true))
            &&& holds_part(all, ",\"first\":"@ + place_json(t.first))
            &&& holds_part(all, ",\"second\":"@ + place_json(t.second))
            &&& holds_part(all, ",\"outcome\":"@ + quoted(t.fate.tag(), true))
            &&& t.first matches Some(p) ==> place_json(t.first) == quoted(place_text(p), true)
            &&& t.first is None ==> place_json(t.first) == "null"@
            &&& t.second matches Some(p) ==> place_json(t.second) == quoted(place_text(p), true)
            &&& t.second is None ==> place_json(t.second) == "null"@
        }),
{
    let note = match t.fate {
        Fate::Inconclusive(why) => quoted(why, true),
        _ => "null"@,
    };
    let r0 = "{\"schema\":1,\"ts_unix\":"@;
    let r1 = r0 + decimal(epoch as nat);
    let r2 = r1 + ",\"ts_utc\":"@;
    let r3 = r2 + quoted(stamp, true);
    let r4 = r3 + ",\"label\":"@;
    let r5 = r4 + quoted(label, true);
    let r6 = r5 + ",\"test\":\"mapping-lifetime\",\"idle_seconds\":"@;
    let r7 = r6 + decimal(t.idle_seconds as nat);
    let r8 = r7 + ",\"server\":"@;
    let r9 = r8 + quoted(t.server, true);
    let r10 = r9 + ",\"first\":"@;
    let r11 = r10 + place_json(t.first);
    let r12 = r11 + ",\"second\":"@;
    let r13 = r12 + place_json(t.second);
    let r14 = r13 + ",\"outcome\":"@;
    let r15 = r14 + quoted(t.fate.tag(), true);
    let r16 = r15 + ",\"note\":"@;
    let r17 = r16 + note;
    let r18 = r17 + "}"@;
    assert(r18 == trial_record(label, t, epoch, stamp));
    crate::text::writing_on_keeps_the_parts(r0, decimal(epoch as nat), ",\"ts_utc\":"@);
    crate::text::writing_on_keeps_the_parts(r1, ",\"ts_utc\":"@, quoted(stamp, true));
    crate::text::writing_on_keeps_the_parts(r2, quoted(stamp, true), ",\"label\":"@);
    crate::text::writing_on_keeps_the_parts(r3, ",\"label\":"@, quoted(label, true));
    crate::text::writing_on_keeps_the_parts(r4, quoted(label, true), ",\"test\":\"mapping-lifetime\",\"idle_seconds\":"@);
    crate::text::writing_on_keeps_the_parts(r5, ",\"test\":\"mapping-lifetime\",\"idle_seconds\":"@, decimal(t.idle_seconds as nat));
    crate::text::writing_on_keeps_the_parts(r6, decimal(t.idle_seconds as nat), ",\"server\":"@);
    crate::text::writing_on_keeps_the_parts(r7, ",\"server\":"@, quoted(t.server, true));
    crate::text::writing_on_keeps_the_parts(r8, quoted(t.server, true), ",\"first\":"@);
    crate::text::writing_on_keeps_the_parts(r9, ",\"first\":"@, place_json(t.first));
    crate::text::writing_on_keeps_the_parts(r10, place_json(t.first), ",\"second\":"@);
    crate::text::writing_on_keeps_the_parts(r11, ",\"second\":"@, place_json(t.second));
    crate::text::writing_on_keeps_the_parts(r12, place_json(t.second), ",\"outcome\":"@);
    crate::text::writing_on_keeps_the_parts(r13, ",\"outcome\":"@, quoted(t.fate.tag(), true));
    crate::text::writing_on_keeps_the_parts(r14, quoted(t.fate.tag(), true), ",\"note\":"@);
    crate::text::writing_on_keeps_the_parts(r15, ",\"note\":"@, note);
    crate::text::writing_on_keeps_the_parts(r16, note, "}"@);
    crate::text::writing_on_keeps_the_parts(r17, "}"@, Seq::empty());
}

/// The silences that are tried reach from a quarter of a minute to ten minutes,
/// each longer than the one before it.
pub proof fn every_interval_is_longer_than_the_last(i: int, j: int)
    requires
        0 <= i < j < 11,
    ensures
        IDLE_INTERVALS@.len() == 11,
        IDLE_INTERVALS@[i] < IDLE_INTERVALS@[j],
        15 <= IDLE_INTERVALS@[i],
        IDLE_INTERVALS@[j] <= 600,
        IDLE_INTERVALS@ == seq![15u64, 30, 45, 60, 90, 120, 180, 240, 300, 420, 600],
{
    assert(IDLE_INTERVALS@ =~= seq![15u64, 30, 45, 60, 90, 120, 180, 240, 300, 420, 600]);
}

} // verus!
