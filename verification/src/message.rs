//! What nodes say to one another.
use crate::bytes::{
    copy_range, get_u32_le, get_u64_le, le_bytes, le_value, lemma_byte_rooms, lemma_le_bytes_len,
    lemma_le_round_trip, put_u64_le,
};
use crate::frame::{block, length_at, put_block};
use crate::peer::{address_form, peer_form, prints_as_itself, Address, PeerId};
use crate::text::chars_of;
use crate::utf8::{lemma_text_reads_back, read_text, text_in};
use vstd::prelude::*;
use vstd::utf8::encode_utf8;

verus! {

/// "I am still here."
pub const KIND_HEARTBEAT: u8 = 1;

/// "I am leaving on purpose."
///
/// This has to be an announcement rather than anything the transport layer
/// reports. A killed process still has its sockets closed tidily by the kernel,
/// so a clean close says nothing about whether the departure was orderly; only
/// the node itself knows that.
pub const KIND_DEPARTING: u8 = 2;

/// "Here is the job's state as of this tick."
///
/// Sent by whichever node is currently running the job, to everyone. A peer
/// that holds a recent checkpoint can continue the work without asking anyone
/// for anything, which is what makes takeover fast enough to be worth doing.
pub const KIND_CHECKPOINT: u8 = 3;

/// "I can see this peer at this address."
///
/// A node behind address translation cannot know its own address; only the
/// peer receiving its packets can see where they came from. So nobody
/// advertises themselves; everyone reports what they observe of others, and a
/// node learns where it lives by hearing itself described.
pub const KIND_OBSERVED: u8 = 4;

/// Something a node said.
#[derive(Debug, PartialEq)]
pub enum Message {
    Heartbeat { label: String },
    Departing { label: String },
    Checkpoint { label: String, tick: u64, state: Vec<u8> },
    Observed { label: String, peer: PeerId, addr: Address },
}

/// Something a node said, as values.
#[verifier::ext_equal]
pub enum Said {
    Heartbeat { label: Seq<char> },
    Departing { label: Seq<char> },
    Checkpoint { label: Seq<char>, tick: u64, state: Seq<u8> },
    Observed { label: Seq<char>, peer: Seq<u8>, addr: Seq<char> },
}

impl View for Message {
    type V = Said;

    open spec fn view(&self) -> Said {
        match self {
            Message::Heartbeat { label } => Said::Heartbeat { label: label@ },
            Message::Departing { label } => Said::Departing { label: label@ },
            Message::Checkpoint { label, tick, state } => Said::Checkpoint {
                label: label@,
                tick: *tick,
                state: state@,
            },
            Message::Observed { label, peer, addr } => Said::Observed {
                label: label@,
                peer: peer@,
                addr: addr@,
            },
        }
    }
}

impl Said {
    /// Who said it, by the name they gave.
    pub open spec fn label(self) -> Seq<char> {
        match self {
            Said::Heartbeat { label } => label,
            Said::Departing { label } => label,
            Said::Checkpoint { label, .. } => label,
            Said::Observed { label, .. } => label,
        }
    }
}

impl Message {
    /// Who said it, by the name they gave.
    pub fn label(&self) -> (label: &String)
        ensures
            label@ == self@.label(),
    {
        match self {
            Message::Heartbeat { label } => label,
            Message::Departing { label } => label,
            Message::Checkpoint { label, .. } => label,
            Message::Observed { label, .. } => label,
        }
    }
}

/// Writes text with its length in front of it.
pub fn put_str(out: &mut Vec<u8>, text: &str)
    ensures
        final(out)@ == old(out)@ + block(encode_utf8(text@)),
{
    put_block(out, text.as_bytes());
}

/// Reads four bytes at `at`, and moves on behind them. Where they are not all
/// there, nothing is read and `at` stays.
pub fn take_u32(bytes: &[u8], at: &mut usize) -> (value: Option<u32>)
    ensures
        match value {
            Some(v) => {
                &&& *old(at) + 4 <= bytes@.len()
                &&& v == le_value(bytes@.subrange(*old(at) as int, *old(at) + 4))
                &&& *final(at) == *old(at) + 4
            },
            None => *old(at) + 4 > bytes@.len() && *final(at) == *old(at),
        },
{
    let all = bytes.len();
    let end = match at.checked_add(4) {
        Some(end) => end,
        None => return None,
    };
    if end > all {
        return None;
    }
    let value = get_u32_le(bytes, *at);
    *at = end;
    Some(value)
}

/// Reads eight bytes at `at`, and moves on behind them. Where they are not all
/// there, nothing is read and `at` stays.
pub fn take_u64(bytes: &[u8], at: &mut usize) -> (value: Option<u64>)
    ensures
        match value {
            Some(v) => {
                &&& *old(at) + 8 <= bytes@.len()
                &&& v == le_value(bytes@.subrange(*old(at) as int, *old(at) + 8))
                &&& *final(at) == *old(at) + 8
            },
            None => *old(at) + 8 > bytes@.len() && *final(at) == *old(at),
        },
{
    let all = bytes.len();
    let end = match at.checked_add(8) {
        Some(end) => end,
        None => return None,
    };
    if end > all {
        return None;
    }
    let value = get_u64_le(bytes, *at);
    *at = end;
    Some(value)
}

/// The block at `at` and where it ends, if all of it is there.
pub open spec fn block_in(bytes: Seq<u8>, at: int) -> Option<(Seq<u8>, int)> {
    if at + 4 > bytes.len() {
        None
    } else {
        let end = at + 4 + length_at(bytes, at);
        if end > bytes.len() {
            None
        } else {
            Some((bytes.subrange(at + 4, end), end))
        }
    }
}

/// Reads the block at `at`, and moves on behind it. Where it is not all there,
/// nothing is read; `at` stays, or stands behind the length if that was there.
pub fn take_bytes(bytes: &[u8], at: &mut usize) -> (value: Option<Vec<u8>>)
    ensures
        match value {
            Some(v) => block_in(bytes@, *old(at) as int) == Some((v@, *final(at) as int)),
            None => {
                &&& block_in(bytes@, *old(at) as int) is None
                &&& *final(at) == if *old(at) + 4 <= bytes@.len() {
                    *old(at) + 4
                } else {
                    *old(at) as int
                }
            },
        },
{
    let all = bytes.len();
    let len = match take_u32(bytes, at) {
        Some(len) => len,
        None => return None,
    };
    let end = match at.checked_add(len as usize) {
        Some(end) => end,
        None => return None,
    };
    if end > all {
        return None;
    }
    let value = copy_range(bytes, *at, end);
    *at = end;
    Some(value)
}

/// A heartbeat as it is sent. The counter keeps one heartbeat from being the
/// same bytes as another; nobody reads it.
pub open spec fn heartbeat_bytes(label: Seq<char>, counter: u64) -> Seq<u8> {
    seq![KIND_HEARTBEAT] + block(encode_utf8(label)) + le_bytes(counter as nat, 8)
}

/// A goodbye as it is sent.
pub open spec fn departing_bytes(label: Seq<char>) -> Seq<u8> {
    seq![KIND_DEPARTING] + block(encode_utf8(label))
}

/// An observation as it is sent.
pub open spec fn observed_bytes(label: Seq<char>, peer: Seq<u8>, addr: Seq<char>) -> Seq<u8> {
    seq![KIND_OBSERVED] + block(encode_utf8(label)) + block(peer) + block(encode_utf8(addr))
}

/// A checkpoint as it is sent.
pub open spec fn checkpoint_bytes(label: Seq<char>, tick: u64, state: Seq<u8>) -> Seq<u8> {
    seq![KIND_CHECKPOINT] + block(encode_utf8(label)) + le_bytes(tick as nat, 8) + block(state)
}

pub fn encode_heartbeat(label: &str, counter: u64) -> (out: Vec<u8>)
    ensures
        out@ == heartbeat_bytes(label@, counter),
{
    let mut out: Vec<u8> = vec![KIND_HEARTBEAT];
    put_str(&mut out, label);
    put_u64_le(&mut out, counter);
    out
}

pub fn encode_departing(label: &str) -> (out: Vec<u8>)
    ensures
        out@ == departing_bytes(label@),
{
    let mut out: Vec<u8> = vec![KIND_DEPARTING];
    put_str(&mut out, label);
    out
}

pub fn encode_observed(label: &str, peer: &PeerId, addr: &Address) -> (out: Vec<u8>)
    ensures
        out@ == observed_bytes(label@, peer@, addr@),
        sendable_label(label@) && encode_utf8(addr@).len() <= u32::MAX ==> said_in(out@) == Some(
            Said::Observed { label: label@, peer: peer@, addr: addr@ },
        ),
{
    let mut out: Vec<u8> = vec![KIND_OBSERVED];
    put_str(&mut out, label);
    let id = peer.to_bytes();
    put_block(&mut out, &id);
    let place = addr.text();
    put_str(&mut out, place);
    proof {
        if sendable_label(label@) && encode_utf8(addr@).len() <= u32::MAX {
            observations_round_trip(label@, peer@, addr@);
        }
    }
    out
}

pub fn encode_checkpoint(label: &str, tick: u64, state: &[u8]) -> (out: Vec<u8>)
    ensures
        out@ == checkpoint_bytes(label@, tick, state@),
{
    let mut out: Vec<u8> = vec![KIND_CHECKPOINT];
    put_str(&mut out, label);
    put_u64_le(&mut out, tick);
    put_block(&mut out, state);
    out
}

/// What the rest of a checkpoint says, from where its label ends.
pub open spec fn checkpoint_in(bytes: Seq<u8>, at: int, label: Seq<char>) -> Option<Said> {
    if at + 8 > bytes.len() {
        None
    } else {
        match block_in(bytes, at + 8) {
            Some((state, _)) => Some(
                Said::Checkpoint {
                    label,
                    tick: le_value(bytes.subrange(at, at + 8)) as u64,
                    state,
                },
            ),
            None => None,
        }
    }
}

/// What the rest of an observation says, from where its label ends.
pub open spec fn observed_in(bytes: Seq<u8>, at: int, label: Seq<char>) -> Option<Said> {
    match block_in(bytes, at) {
        None => None,
        Some((id, next)) => match peer_form(id) {
            None => None,
            Some(peer) => match block_in(bytes, next) {
                None => None,
                Some((raw, _)) => match text_in(raw) {
                    None => None,
                    Some(text) => match address_form(text) {
                        Err(_) => None,
                        Ok(addr) => Some(Said::Observed { label, peer, addr }),
                    },
                },
            },
        },
    }
}

/// What `bytes` say, if anything: a kind that is known, a label that is not
/// empty, and whatever belongs to that kind. What follows is nobody's business.
pub open spec fn said_in(bytes: Seq<u8>) -> Option<Said> {
    if bytes.len() == 0 {
        None
    } else {
        match block_in(bytes, 1) {
            None => None,
            Some((raw, at)) => match text_in(raw) {
                None => None,
                Some(label) => if label.len() == 0 {
                    None
                } else if bytes[0] == KIND_HEARTBEAT {
                    Some(Said::Heartbeat { label })
                } else if bytes[0] == KIND_DEPARTING {
                    Some(Said::Departing { label })
                } else if bytes[0] == KIND_CHECKPOINT {
                    checkpoint_in(bytes, at, label)
                } else if bytes[0] == KIND_OBSERVED {
                    observed_in(bytes, at, label)
                } else {
                    None
                },
            },
        }
    }
}

/// What was said, if anything.
pub open spec fn said(message: Option<Message>) -> Option<Said> {
    match message {
        Some(message) => Some(message@),
        None => None,
    }
}

/// Reads a message. Gives `None` for anything unrecognised or malformed.
///
/// A future version publishing kinds this one has never heard of must be
/// ignored rather than misread: mistaking any other message for a heartbeat
/// would make a departed node look present.
pub fn parse_message(bytes: &[u8]) -> (message: Option<Message>)
    ensures
        said(message) == said_in(bytes@),
{
    if bytes.len() == 0 {
        return None;
    }
    let kind = bytes[0];
    let mut at: usize = 1;
    let raw = match take_bytes(bytes, &mut at) {
        Some(raw) => raw,
        None => return None,
    };
    let label = match read_text(raw) {
        Some(label) => label,
        None => return None,
    };
    if chars_of(&label).len() == 0 {
        return None;
    }
    if kind == KIND_HEARTBEAT {
        Some(Message::Heartbeat { label })
    } else if kind == KIND_DEPARTING {
        Some(Message::Departing { label })
    } else if kind == KIND_CHECKPOINT {
        let tick = match take_u64(bytes, &mut at) {
            Some(tick) => tick,
            None => return None,
        };
        let state = match take_bytes(bytes, &mut at) {
            Some(state) => state,
            None => return None,
        };
        Some(Message::Checkpoint { label, tick, state })
    } else if kind == KIND_OBSERVED {
        let id = match take_bytes(bytes, &mut at) {
            Some(id) => id,
            None => return None,
        };
        let peer = match PeerId::from_bytes(&id) {
            Some(peer) => peer,
            None => return None,
        };
        let raw = match take_bytes(bytes, &mut at) {
            Some(raw) => raw,
            None => return None,
        };
        let text = match read_text(raw) {
            Some(text) => text,
            None => return None,
        };
        let addr = match Address::parse(&text) {
            Ok(addr) => addr,
            Err(_) => return None,
        };
        Some(Message::Observed { label, peer, addr })
    } else {
        None
    }
}

/// How long a block is.
proof fn lemma_block_len(bytes: Seq<u8>)
    ensures
        block(bytes).len() == 4 + bytes.len(),
{
    lemma_le_bytes_len(bytes.len() % 0x1_0000_0000, 4);
}

/// A block that was written is read back, whatever stands around it.
proof fn lemma_block_reads_back(whole: Seq<u8>, at: int, bytes: Seq<u8>)
    requires
        bytes.len() <= u32::MAX,
        0 <= at,
        at + 4 + bytes.len() <= whole.len(),
        whole.subrange(at, at + 4 + bytes.len()) == block(bytes),
    ensures
        block_in(whole, at) == Some((bytes, at + 4 + bytes.len())),
{
    lemma_byte_rooms();
    lemma_le_bytes_len(bytes.len(), 4);
    lemma_le_round_trip(bytes.len(), 4);
    let written = whole.subrange(at, at + 4 + bytes.len());
    assert(whole.subrange(at, at + 4) =~= written.subrange(0, 4));
    assert(block(bytes).subrange(0, 4) =~= le_bytes(bytes.len(), 4));
    assert(whole.subrange(at + 4, at + 4 + bytes.len()) =~= written.skip(4));
    assert(block(bytes).skip(4) =~= bytes);
}

/// Whether a label can be sent: it is not empty, and its length can be written.
pub open spec fn sendable_label(label: Seq<char>) -> bool {
    label.len() > 0 && encode_utf8(label).len() <= u32::MAX
}

/// The label of a message is read back, whatever follows it.
proof fn lemma_label_reads_back(kind: u8, label: Seq<char>, after: Seq<u8>)
    requires
        sendable_label(label),
    ensures
        ({
            let name = encode_utf8(label);
            let whole = seq![kind] + block(name) + after;
            &&& whole[0] == kind
            &&& block_in(whole, 1) == Some((name, 5 + name.len() as int))
            &&& text_in(name) == Some(label)
        }),
{
    let name = encode_utf8(label);
    let whole = seq![kind] + block(name) + after;
    lemma_block_len(name);
    assert(whole.subrange(1, 5 + name.len() as int) =~= block(name));
    lemma_block_reads_back(whole, 1, name);
    lemma_text_reads_back(label);
}

/// A heartbeat is heard as a heartbeat of whoever sent it.
pub proof fn heartbeats_round_trip(label: Seq<char>, counter: u64)
    requires
        sendable_label(label),
    ensures
        said_in(heartbeat_bytes(label, counter)) == Some(Said::Heartbeat { label }),
{
    lemma_label_reads_back(KIND_HEARTBEAT, label, le_bytes(counter as nat, 8));
}

/// A goodbye is heard as a goodbye of whoever sent it.
pub proof fn goodbyes_round_trip(label: Seq<char>)
    requires
        sendable_label(label),
    ensures
        said_in(departing_bytes(label)) == Some(Said::Departing { label }),
{
    lemma_label_reads_back(KIND_DEPARTING, label, Seq::empty());
    assert(departing_bytes(label) =~= departing_bytes(label) + Seq::<u8>::empty());
}

/// What stands where in a checkpoint.
proof fn lemma_checkpoint_parts(name: Seq<u8>, tick: u64, state: Seq<u8>)
    requires
        name.len() <= u32::MAX,
        state.len() <= u32::MAX,
    ensures
        ({
            let whole = seq![KIND_CHECKPOINT] + block(name) + le_bytes(tick as nat, 8) + block(
                state,
            );
            let at = 5 + name.len() as int;
            &&& whole[0] == KIND_CHECKPOINT
            &&& block_in(whole, 1) == Some((name, at))
            &&& at + 8 <= whole.len()
            &&& le_value(whole.subrange(at, at + 8)) == tick
            &&& block_in(whole, at + 8) == Some((state, at + 12 + state.len() as int))
        }),
{
    let count = le_bytes(tick as nat, 8);
    let whole = seq![KIND_CHECKPOINT] + block(name) + count + block(state);
    let at = 5 + name.len() as int;
    lemma_byte_rooms();
    lemma_le_bytes_len(tick as nat, 8);
    lemma_le_round_trip(tick as nat, 8);
    lemma_block_len(name);
    lemma_block_len(state);
    assert(whole.subrange(1, at) =~= block(name));
    assert(whole.subrange(at, at + 8) =~= count);
    assert(whole.subrange(at + 8, at + 12 + state.len()) =~= block(state));
    lemma_block_reads_back(whole, 1, name);
    lemma_block_reads_back(whole, at + 8, state);
}

/// A checkpoint is heard as it was sent, whatever bytes the state is made of.
pub proof fn checkpoints_round_trip(label: Seq<char>, tick: u64, state: Seq<u8>)
    requires
        sendable_label(label),
        state.len() <= u32::MAX,
    ensures
        said_in(checkpoint_bytes(label, tick, state)) == Some(
            Said::Checkpoint { label, tick, state },
        ),
{
    lemma_checkpoint_parts(encode_utf8(label), tick, state);
    lemma_text_reads_back(label);
}

/// What stands where in an observation.
proof fn lemma_observed_parts(name: Seq<u8>, peer: Seq<u8>, place: Seq<u8>)
    requires
        name.len() <= u32::MAX,
        peer.len() <= u32::MAX,
        place.len() <= u32::MAX,
    ensures
        ({
            let whole = seq![KIND_OBSERVED] + block(name) + block(peer) + block(place);
            let at = 5 + name.len() as int;
            let next = at + 4 + peer.len();
            &&& whole[0] == KIND_OBSERVED
            &&& block_in(whole, 1) == Some((name, at))
            &&& block_in(whole, at) == Some((peer, next))
            &&& block_in(whole, next) == Some((place, next + 4 + place.len()))
        }),
{
    let whole = seq![KIND_OBSERVED] + block(name) + block(peer) + block(place);
    let at = 5 + name.len() as int;
    let next = at + 4 + peer.len();
    lemma_block_len(name);
    lemma_block_len(peer);
    lemma_block_len(place);
    assert(whole.subrange(1, at) =~= block(name));
    assert(whole.subrange(at, next) =~= block(peer));
    assert(whole.subrange(next, next + 4 + place.len()) =~= block(place));
    lemma_block_reads_back(whole, 1, name);
    lemma_block_reads_back(whole, at, peer);
    lemma_block_reads_back(whole, next, place);
}

/// An observation of a peer and an address, each in the form in which it is
/// written, is heard as it was sent.
pub proof fn observations_round_trip(label: Seq<char>, peer: Seq<u8>, addr: Seq<char>)
    requires
        sendable_label(label),
        peer.len() <= u32::MAX,
        encode_utf8(addr).len() <= u32::MAX,
    ensures
        peer_form(peer) == Some(peer) && prints_as_itself(addr) ==> said_in(
            observed_bytes(label, peer, addr),
        ) == Some(Said::Observed { label, peer, addr }),
{
    lemma_observed_parts(encode_utf8(label), peer, encode_utf8(addr));
    lemma_text_reads_back(label);
    lemma_text_reads_back(addr);
}

/// Nothing but a heartbeat is heard as one, nothing but a goodbye is heard as
/// one, and a kind that this version has never heard of is ignored.
pub proof fn kinds_are_never_confused(bytes: Seq<u8>)
    ensures
        said_in(bytes) matches Some(Said::Heartbeat { .. }) ==> bytes[0] == KIND_HEARTBEAT,
        said_in(bytes) matches Some(Said::Departing { .. }) ==> bytes[0] == KIND_DEPARTING,
        said_in(bytes) matches Some(Said::Checkpoint { .. }) ==> bytes[0] == KIND_CHECKPOINT,
        said_in(bytes) matches Some(Said::Observed { .. }) ==> bytes[0] == KIND_OBSERVED,
        bytes.len() > 0 && bytes[0] != KIND_HEARTBEAT && bytes[0] != KIND_DEPARTING && bytes[0]
            != KIND_CHECKPOINT && bytes[0] != KIND_OBSERVED ==> said_in(bytes) is None,
{
}

/// A goodbye is never mistaken for a heartbeat, whoever says it.
pub proof fn a_goodbye_is_never_mistaken_for_a_heartbeat(label: Seq<char>)
    ensures
        !(said_in(departing_bytes(label)) matches Some(Said::Heartbeat { .. })),
{
    kinds_are_never_confused(departing_bytes(label));
}

proof fn lemma_block_was_written(bytes: Seq<u8>, at: int)
    requires
        0 <= at,
        block_in(bytes, at) is Some,
    ensures
        ({
            let (raw, end) = block_in(bytes, at)->0;
            &&& end == at + 4 + raw.len()
            &&& end <= bytes.len()
            &&& bytes.subrange(at, end) == block(raw)
            &&& raw.len() <= u32::MAX
        }),
{
    let (raw, end) = block_in(bytes, at)->0;
    let four = bytes.subrange(at, at + 4);
    lemma_byte_rooms();
    crate::bytes::lemma_le_value(four);
    assert(raw.len() == le_value(four));
    assert(bytes.subrange(at, end) =~= block(raw));
}

proof fn lemma_text_was_written(raw: Seq<u8>)
    requires
        text_in(raw) is Some,
    ensures
        encode_utf8(text_in(raw)->0) == raw,
{
    vstd::utf8::decode_utf8_encode_utf8(raw);
}

/// What is understood was said: bytes are taken for a goodbye or a checkpoint
/// only where they begin with exactly that, and for a heartbeat only where they
/// begin with one of that sender's. Nobody goes without a name.
pub proof fn what_is_understood_was_said(bytes: Seq<u8>)
    ensures
        match said_in(bytes) {
            None => true,
            Some(Said::Heartbeat { label }) => {
                &&& label.len() > 0
                &&& (seq![1u8] + block(encode_utf8(label))).is_prefix_of(bytes)
            },
            Some(Said::Departing { label }) => {
                &&& label.len() > 0
                &&& (seq![2u8] + block(encode_utf8(label))).is_prefix_of(bytes)
            },
            Some(Said::Checkpoint { label, tick, state }) => {
                &&& label.len() > 0
                &&& (seq![3u8] + block(encode_utf8(label)) + le_bytes(tick as nat, 8) + block(
                    state,
                )).is_prefix_of(bytes)
            },
            Some(Said::Observed { label, .. }) => {
                &&& label.len() > 0
                &&& (seq![4u8] + block(encode_utf8(label))).is_prefix_of(bytes)
            },
        },
{
    if said_in(bytes) is Some {
        let (raw, at) = block_in(bytes, 1)->0;
        let label = text_in(raw)->0;
        lemma_block_was_written(bytes, 1);
        lemma_text_was_written(raw);
        let head = seq![bytes[0]] + block(raw);
        assert(bytes.subrange(0, at) =~= head);
        if let Some(Said::Checkpoint { tick, state, .. }) = said_in(bytes) {
            lemma_block_was_written(bytes, at + 8);
            lemma_byte_rooms();
            let eight = bytes.subrange(at, at + 8);
            crate::bytes::lemma_le_value(eight);
            let end = at + 12 + state.len();
            assert(le_bytes(tick as nat, 8) == eight);
            assert(bytes.subrange(at + 8, end) == block(state));
            let whole = head + eight + block(state);
            assert(bytes.subrange(0, end) =~= whole);
        }
    }
}

/// A message that has a name is understood by its kind, the first byte: one is a
/// heartbeat, two a goodbye, and a checkpoint or an observation needs all of its
/// parts. Any other kind is ignored, and so is one without a name.
pub proof fn the_first_byte_is_the_kind(kind: u8, label: Seq<char>, rest: Seq<u8>)
    requires
        encode_utf8(label).len() <= u32::MAX,
    ensures
        ({
            let said = said_in(seq![kind] + block(encode_utf8(label)) + rest);
            &&& label.len() == 0 ==> said is None
            &&& label.len() > 0 && kind == 1 ==> said == Some(Said::Heartbeat { label })
            &&& label.len() > 0 && kind == 2 ==> said == Some(Said::Departing { label })
            &&& kind == 3 && rest.len() < 12 ==> said is None
            &&& kind == 0 || kind > 4 ==> said is None
        }),
{
    let name = encode_utf8(label);
    let whole = seq![kind] + block(name) + rest;
    lemma_block_len(name);
    assert(whole.subrange(1, 5 + name.len() as int) =~= block(name));
    lemma_block_reads_back(whole, 1, name);
    lemma_text_reads_back(label);
}

} // verus!
