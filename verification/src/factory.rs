//! A factory, as a job.
//!
//! Steel arrives, items move along an assembly line over several ticks, and
//! finished widgets accumulate in the output bin. It exists to demonstrate the
//! job contract with something recognisable rather than to be a good factory.
//!
//! Three rules the whole design rests on, all visible here:
//!
//! 1. Nothing survives between ticks except the state. Everything the factory
//!    knows is decoded from the incoming state and encoded back out.
//! 2. Time arrives as an input. Nothing here reads a clock.
//! 3. Effects are described, not performed. The factory says it produced
//!    widgets and wants steel. Whether either happens is the host's business.
use crate::bytes::{
    get_u32_le, get_u64_le, le_bytes, le_value, lemma_byte_rooms, lemma_le_bytes_len,
    lemma_le_round_trip, put_u32_le, put_u64_le,
};
use crate::frame::{encode_frame, frame, frame_of, frames_round_trip, length_at, FrameError};
use crate::text::{decimal, push_decimal};
use crate::utf8::lemma_bytes_per_char;
use vstd::prelude::*;
use vstd::utf8::encode_utf8;

verus! {

pub const LINE_SLOTS: usize = 4;

/// Progress units an item needs before it is finished.
pub const WORK_PER_ITEM: u32 = 100;

/// Progress one worker contributes to one item per tick.
pub const WORK_PER_WORKER: u32 = 12;

/// Steel consumed to start one item.
pub const STEEL_PER_ITEM: u32 = 2;

/// Below this, the factory asks for more steel.
pub const STEEL_REORDER_AT: u32 = 10;

pub const STEEL_REORDER_QTY: u32 = 40;

/// Bytes of an encoded state.
pub const STATE_BYTES: usize = 36;

/// What the factory knows.
pub struct State {
    pub tick: u64,
    pub steel: u32,
    pub widgets: u32,
    pub wear: u32,
    pub line: [u32; 4],
}

/// What the factory knows, as numbers. A slot of the line holds the progress of
/// the item in it, and nothing where that is zero.
#[verifier::ext_equal]
pub struct Factory {
    pub tick: nat,
    pub steel: nat,
    pub widgets: nat,
    pub wear: nat,
    pub line: Seq<nat>,
}

impl Factory {
    /// A factory that has not run yet.
    pub open spec fn fresh() -> Factory {
        Factory { tick: 0, steel: 0, widgets: 0, wear: 0, line: seq![0nat, 0, 0, 0] }
    }

    /// Every number fits where it is kept.
    pub open spec fn wf(self) -> bool {
        &&& self.tick <= u64::MAX
        &&& self.steel <= u32::MAX
        &&& self.widgets <= u32::MAX
        &&& self.wear <= u32::MAX
        &&& self.line.len() == LINE_SLOTS
        &&& forall|i: int| 0 <= i < LINE_SLOTS ==> #[trigger] self.line[i] <= u32::MAX
    }

    /// The bytes that stand for this.
    pub open spec fn bytes(self) -> Seq<u8> {
        le_bytes(self.tick, 8) + le_bytes(self.steel, 4) + le_bytes(self.widgets, 4) + le_bytes(
            self.wear,
            4,
        ) + le_bytes(self.line[0], 4) + le_bytes(self.line[1], 4) + le_bytes(self.line[2], 4)
            + le_bytes(self.line[3], 4)
    }
}

/// The number in the `n` bytes of `bytes` at `at`, the least significant first.
pub open spec fn number_at(bytes: Seq<u8>, at: int, n: int) -> nat {
    le_value(bytes.subrange(at, at + n))
}

/// The factory that `bytes` stand for. Too few bytes stand for one that has not
/// run yet; bytes past the end of a state are nobody's business.
pub open spec fn factory_in(bytes: Seq<u8>) -> Factory {
    if bytes.len() < STATE_BYTES {
        Factory::fresh()
    } else {
        Factory {
            tick: number_at(bytes, 0, 8),
            steel: number_at(bytes, 8, 4),
            widgets: number_at(bytes, 12, 4),
            wear: number_at(bytes, 16, 4),
            line: Seq::new(4, |i: int| number_at(bytes, 20 + 4 * i, 4)),
        }
    }
}

impl View for State {
    type V = Factory;

    open spec fn view(&self) -> Factory {
        Factory {
            tick: self.tick as nat,
            steel: self.steel as nat,
            widgets: self.widgets as nat,
            wear: self.wear as nat,
            line: Seq::new(4, |i: int| self.line@[i] as nat),
        }
    }
}

impl State {
    /// Reads a state. An absent or malformed one means a factory that has not
    /// run yet: refusing to start would make the first tick a special case for
    /// the host to handle, and there is nothing to recover from.
    pub fn decode(bytes: &[u8]) -> (state: State)
        ensures
            state@ == factory_in(bytes@),
    {
        if bytes.len() < STATE_BYTES {
            let state = State { tick: 0, steel: 0, widgets: 0, wear: 0, line: [0, 0, 0, 0] };
            assert(state@.line =~= Factory::fresh().line);
            return state;
        }
        let state = State {
            tick: get_u64_le(bytes, 0),
            steel: get_u32_le(bytes, 8),
            widgets: get_u32_le(bytes, 12),
            wear: get_u32_le(bytes, 16),
            line: [
                get_u32_le(bytes, 20),
                get_u32_le(bytes, 24),
                get_u32_le(bytes, 28),
                get_u32_le(bytes, 32),
            ],
        };
        assert(state@.line =~= factory_in(bytes@).line);
        state
    }

    /// The bytes to read this state back from.
    pub fn encode(&self) -> (out: Vec<u8>)
        ensures
            out@ == self@.bytes(),
            out@.len() == STATE_BYTES,
    {
        let mut out: Vec<u8> = Vec::new();
        put_u64_le(&mut out, self.tick);
        put_u32_le(&mut out, self.steel);
        put_u32_le(&mut out, self.widgets);
        put_u32_le(&mut out, self.wear);
        put_u32_le(&mut out, self.line[0]);
        put_u32_le(&mut out, self.line[1]);
        put_u32_le(&mut out, self.line[2]);
        put_u32_le(&mut out, self.line[3]);
        proof {
            lemma_state_parts(self@);
        }
        out
    }
}

/// Where each part of a state stands among its bytes.
proof fn lemma_state_parts(f: Factory)
    requires
        f.wf(),
    ensures
        f.bytes().len() == STATE_BYTES,
        f.bytes().subrange(0, 8) == le_bytes(f.tick, 8),
        f.bytes().subrange(8, 12) == le_bytes(f.steel, 4),
        f.bytes().subrange(12, 16) == le_bytes(f.widgets, 4),
        f.bytes().subrange(16, 20) == le_bytes(f.wear, 4),
        f.bytes().subrange(20, 24) == le_bytes(f.line[0], 4),
        f.bytes().subrange(24, 28) == le_bytes(f.line[1], 4),
        f.bytes().subrange(28, 32) == le_bytes(f.line[2], 4),
        f.bytes().subrange(32, 36) == le_bytes(f.line[3], 4),
{
    lemma_le_bytes_len(f.tick, 8);
    lemma_le_bytes_len(f.steel, 4);
    lemma_le_bytes_len(f.widgets, 4);
    lemma_le_bytes_len(f.wear, 4);
    lemma_le_bytes_len(f.line[0], 4);
    lemma_le_bytes_len(f.line[1], 4);
    lemma_le_bytes_len(f.line[2], 4);
    lemma_le_bytes_len(f.line[3], 4);
    assert(f.bytes().subrange(0, 8) =~= le_bytes(f.tick, 8));
    assert(f.bytes().subrange(8, 12) =~= le_bytes(f.steel, 4));
    assert(f.bytes().subrange(12, 16) =~= le_bytes(f.widgets, 4));
    assert(f.bytes().subrange(16, 20) =~= le_bytes(f.wear, 4));
    assert(f.bytes().subrange(20, 24) =~= le_bytes(f.line[0], 4));
    assert(f.bytes().subrange(24, 28) =~= le_bytes(f.line[1], 4));
    assert(f.bytes().subrange(28, 32) =~= le_bytes(f.line[2], 4));
    assert(f.bytes().subrange(32, 36) =~= le_bytes(f.line[3], 4));
}

/// A state survives a round trip through its bytes.
pub proof fn states_round_trip(f: Factory)
    requires
        f.wf(),
    ensures
        factory_in(f.bytes()) == f,
{
    lemma_state_parts(f);
    lemma_byte_rooms();
    lemma_le_round_trip(f.tick, 8);
    lemma_le_round_trip(f.steel, 4);
    lemma_le_round_trip(f.widgets, 4);
    lemma_le_round_trip(f.wear, 4);
    assert forall|i: int| 0 <= i < 4 implies number_at(f.bytes(), 20 + 4 * i, 4) == #[trigger] f.line[i] by {
        lemma_le_round_trip(f.line[i], 4);
    }
    assert(factory_in(f.bytes()).line =~= f.line);
}

/// What the world hands the factory for one tick.
pub struct Inputs {
    pub delivered_steel: u32,
    pub workers: u32,
}

/// The number in four bytes of `bytes` at `at`, and zero where they are not
/// there.
pub open spec fn input_at(bytes: Seq<u8>, at: int) -> nat {
    if at + 4 <= bytes.len() {
        number_at(bytes, at, 4)
    } else {
        0
    }
}

fn read_input(bytes: &[u8], at: usize) -> (value: u32)
    requires
        at <= 12,
    ensures
        value == input_at(bytes@, at as int),
{
    if at + 4 <= bytes.len() {
        get_u32_le(bytes, at)
    } else {
        0
    }
}

impl Inputs {
    /// Reads the inputs of a tick. World time is the first eight bytes. This
    /// factory does not need it, but every job receives it, because a job that
    /// wanted the time and could not ask the host for it would have no other
    /// way to get it.
    pub fn decode(bytes: &[u8]) -> (inputs: Inputs)
        ensures
            inputs.delivered_steel == input_at(bytes@, 8),
            inputs.workers == input_at(bytes@, 12),
    {
        Inputs { delivered_steel: read_input(bytes, 8), workers: read_input(bytes, 12) }
    }
}

/// `n`, or the largest number that a counter of the factory can hold.
pub open spec fn held(n: nat) -> nat {
    if n <= u32::MAX {
        n
    } else {
        u32::MAX as nat
    }
}

/// The progress that every item on the line makes in one tick.
pub open spec fn progress(workers: nat) -> nat {
    let share = held(WORK_PER_WORKER as nat * workers) / LINE_SLOTS as nat;
    if share == 0 {
        1
    } else {
        share
    }
}

/// Whether working on what is in a slot finishes it.
pub open spec fn finishes(slot: nat, workers: nat) -> bool {
    slot != 0 && held(slot + progress(workers)) >= WORK_PER_ITEM
}

/// A slot after it was worked on: empty stays empty, and what is finished
/// leaves it.
pub open spec fn worked(slot: nat, workers: nat) -> nat {
    if slot == 0 || finishes(slot, workers) {
        0
    } else {
        held(slot + progress(workers))
    }
}

/// The line after it was worked on.
pub open spec fn worked_line(line: Seq<nat>, workers: nat) -> Seq<nat> {
    Seq::new(line.len(), |i: int| worked(line[i], workers))
}

/// How many items working on the line finishes.
pub open spec fn finished(line: Seq<nat>, workers: nat) -> nat
    decreases line.len(),
{
    if line.len() == 0 {
        0
    } else {
        finished(line.drop_last(), workers) + if finishes(line.last(), workers) {
            1nat
        } else {
            0nat
        }
    }
}

/// How many slots are free.
pub open spec fn free(line: Seq<nat>) -> nat
    decreases line.len(),
{
    if line.len() == 0 {
        0
    } else {
        free(line.drop_last()) + if line.last() == 0 {
            1nat
        } else {
            0nat
        }
    }
}

/// How many items this much steel starts.
pub open spec fn started(line: Seq<nat>, steel: nat) -> nat {
    let affordable = steel / STEEL_PER_ITEM as nat;
    if free(line) <= affordable {
        free(line)
    } else {
        affordable
    }
}

/// The line after new items were started: the free slots that come first get
/// one each, as far as the steel goes.
pub open spec fn started_line(line: Seq<nat>, steel: nat) -> Seq<nat> {
    Seq::new(
        line.len(),
        |i: int|
            if line[i] == 0 && free(line.take(i)) < steel / STEEL_PER_ITEM as nat {
                1
            } else {
                line[i]
            },
    )
}

/// What the factory says once it has finished `n` items.
pub open spec fn produce_text(n: nat) -> Seq<char> {
    if n > 0 {
        "produce widget "@ + decimal(n) + "\n"@
    } else {
        Seq::empty()
    }
}

/// What the factory says once `steel` is what it has left.
pub open spec fn request_text(steel: nat) -> Seq<char> {
    if steel < STEEL_REORDER_AT {
        "request steel "@ + decimal(STEEL_REORDER_QTY as nat) + "\n"@
    } else {
        Seq::empty()
    }
}

/// One tick of the factory: what it then knows, and what it says.
pub open spec fn stepped(f: Factory, delivered: nat, workers: nat) -> (Factory, Seq<char>) {
    let stock = held(f.steel + delivered);
    if workers == 0 {
        (Factory { tick: f.tick + 1, steel: stock, ..f }, request_text(stock))
    } else {
        let line = worked_line(f.line, workers);
        let done = finished(f.line, workers);
        let left = (stock - STEEL_PER_ITEM * started(line, stock)) as nat;
        (
            Factory {
                tick: f.tick + 1,
                steel: left,
                widgets: held(f.widgets + done),
                wear: held(f.wear + 1),
                line: started_line(line, stock),
            },
            produce_text(done) + request_text(left),
        )
    }
}

/// Works on what is in one slot.
fn work_slot(slot: u32, push: u32) -> (res: (u32, bool))
    ensures
        forall|workers: nat|
            progress(workers) == push ==> {
                &&& res.0 == #[trigger] worked(slot as nat, workers)
                &&& res.1 == finishes(slot as nat, workers)
            },
{
    if slot == 0 {
        return (0, false);
    }
    let pushed = slot.saturating_add(push);
    if pushed >= WORK_PER_ITEM {
        (0, true)
    } else {
        (pushed, false)
    }
}

/// Runs one tick: what the factory knows moves on, and what it wants the world
/// to do is returned.
pub fn run(state: &mut State, inputs: &Inputs) -> (effects: String)
    requires
        old(state).tick < u64::MAX,
    ensures
        final(state)@ == stepped(
            old(state)@,
            inputs.delivered_steel as nat,
            inputs.workers as nat,
        ).0,
        effects@ == stepped(
            old(state)@,
            inputs.delivered_steel as nat,
            inputs.workers as nat,
        ).1,
{
    let ghost f = state@;
    let ghost workers = inputs.workers as nat;
    let mut effects = String::new();
    state.tick = state.tick + 1;
    state.steel = state.steel.saturating_add(inputs.delivered_steel);
    let ghost stock = state.steel as nat;

    if inputs.workers > 0 {
        let effort: u32 = match WORK_PER_WORKER.checked_mul(inputs.workers) {
            Some(effort) => effort,
            None => u32::MAX,
        };
        let share = effort / 4;
        let push: u32 = if share == 0 {
            1
        } else {
            share
        };
        assert(push == progress(workers));

        let mut done: u32 = 0;
        let mut line: Vec<u32> = Vec::new();
        let mut at: usize = 0;
        assert(f.line.take(0) =~= Seq::<nat>::empty());
        while at < LINE_SLOTS
            invariant
                at <= LINE_SLOTS,
                push == progress(workers),
                f.line.len() == LINE_SLOTS,
                forall|i: int| 0 <= i < LINE_SLOTS ==> #[trigger] f.line[i] == state.line@[i],
                line@.len() == at,
                forall|i: int| 0 <= i < at ==> #[trigger] line@[i] == worked(f.line[i], workers),
                done == finished(f.line.take(at as int), workers),
                done <= at,
            decreases LINE_SLOTS - at,
        {
            let (slot, is_done) = work_slot(state.line[at], push);
            proof {
                assert(f.line[at as int] == state.line@[at as int]);
                assert(worked(f.line[at as int], workers) == slot);
                let longer = f.line.take(at + 1);
                assert(longer.drop_last() =~= f.line.take(at as int));
                assert(longer.last() == f.line[at as int]);
            }
            line.push(slot);
            if is_done {
                done = done + 1;
            }
            at += 1;
        }
        assert(f.line.take(at as int) =~= f.line);
        let ghost cleared = worked_line(f.line, workers);

        if done > 0 {
            state.widgets = state.widgets.saturating_add(done);
            effects.push_str("produce widget ");
            push_decimal(&mut effects, done as u128);
            effects.push_str("\n");
        }
        assert(effects@ =~= produce_text(done as nat));

        let mut next: Vec<u32> = Vec::new();
        let mut steel = state.steel;
        at = 0;
        assert(cleared.take(0) =~= Seq::<nat>::empty());
        while at < LINE_SLOTS
            invariant
                at <= LINE_SLOTS,
                line@.len() == LINE_SLOTS,
                cleared.len() == LINE_SLOTS,
                stock <= u32::MAX,
                forall|i: int| 0 <= i < LINE_SLOTS ==> #[trigger] cleared[i] == line@[i],
                next@.len() == at,
                forall|i: int|
                    0 <= i < at ==> #[trigger] next@[i] == started_line(cleared, stock)[i],
                steel == stock - STEEL_PER_ITEM * started(cleared.take(at as int), stock),
            decreases LINE_SLOTS - at,
        {
            proof {
                let longer = cleared.take(at + 1);
                assert(longer.drop_last() =~= cleared.take(at as int));
                assert(longer.last() == cleared[at as int]);
                assert(cleared[at as int] == line@[at as int]);
            }
            if line[at] == 0 && steel >= STEEL_PER_ITEM {
                steel = steel - STEEL_PER_ITEM;
                next.push(1);
            } else {
                next.push(line[at]);
            }
            at += 1;
        }
        assert(cleared.take(at as int) =~= cleared);
        state.steel = steel;
        state.line = [next[0], next[1], next[2], next[3]];
        state.wear = state.wear.saturating_add(1);
        assert(state@.line =~= started_line(cleared, stock));
    } else {
        assert(state@.line =~= f.line);
    }
    let ghost before = effects@;
    if state.steel < STEEL_REORDER_AT {
        effects.push_str("request steel ");
        push_decimal(&mut effects, STEEL_REORDER_QTY as u128);
        effects.push_str("\n");
    }
    assert(effects@ =~= before + request_text(state.steel as nat));
    assert(inputs.workers == 0 ==> effects@ =~= request_text(state.steel as nat));
    effects
}

/// The two blocks that `buf` holds, if both lie in it. The factory trusts its
/// host, so no block is too large for it.
pub open spec fn blocks_in(buf: Seq<u8>) -> Option<(Seq<u8>, Seq<u8>)> {
    if buf.len() < 4 {
        None
    } else {
        let at = 4 + length_at(buf, 0) as int;
        if at + 4 > buf.len() {
            None
        } else {
            let end = at + 4 + length_at(buf, at);
            if end > buf.len() {
                None
            } else {
                Some((buf.subrange(4, at), buf.subrange(at + 4, end)))
            }
        }
    }
}

/// Takes a frame apart, where it is one.
pub fn split_frame(frame: &[u8]) -> (parts: Option<(&[u8], &[u8])>)
    ensures
        match parts {
            Some((first, second)) => blocks_in(frame@) == Some((first@, second@)),
            None => blocks_in(frame@) is None,
        },
{
    let all: u64 = frame.len() as u64;
    if all < 4 {
        return None;
    }
    let first_len = get_u32_le(frame, 0);
    if first_len as u64 + 8 > all {
        return None;
    }
    let at = 4 + first_len as usize;
    let second_len = get_u32_le(frame, at);
    if at as u64 + 4 + second_len as u64 > all {
        return None;
    }
    let end = at + 4 + second_len as usize;
    Some((&frame[4..at], &frame[at + 4..end]))
}

/// The state and the inputs that the factory takes a frame for. What is not a
/// frame is a factory that has not run yet, and nobody there.
pub open spec fn handed(buf: Seq<u8>) -> (Seq<u8>, Seq<u8>) {
    match blocks_in(buf) {
        Some(parts) => parts,
        None => (Seq::empty(), Seq::empty()),
    }
}

/// One tick over bytes: the bytes of the state that comes next, and what the
/// factory says.
pub open spec fn stepped_bytes(state: Seq<u8>, inputs: Seq<u8>) -> (Seq<u8>, Seq<char>) {
    let (next, effects) = stepped(factory_in(state), input_at(inputs, 8), input_at(inputs, 12));
    (next.bytes(), effects)
}

/// What the factory says fits in a few bytes.
proof fn lemma_effects_are_short(f: Factory, delivered: nat, workers: nat)
    requires
        f.line.len() == LINE_SLOTS,
    ensures
        stepped(f, delivered, workers).1.len() <= 40,
        finished(f.line, workers) <= LINE_SLOTS,
{
    lemma_finished_at_most(f.line, workers);
    let n = finished(f.line, workers);
    reveal_strlit("produce widget ");
    reveal_strlit("request steel ");
    reveal_strlit("\n");
    assert(n < 10 ==> decimal(n).len() == 1);
    assert(decimal(40).len() == 2) by {
        reveal_with_fuel(crate::text::numeral, 3);
    }
}

/// No more items are finished than are on the line.
pub proof fn lemma_finished_at_most(line: Seq<nat>, workers: nat)
    ensures
        finished(line, workers) <= line.len(),
    decreases line.len(),
{
    if line.len() > 0 {
        lemma_finished_at_most(line.drop_last(), workers);
    }
}

/// One tick, as a job answers it: reads the frame that it was handed, runs, and
/// answers with the frame of the next state and the effects.
pub fn tick(frame: &[u8]) -> (answer: Vec<u8>)
    requires
        factory_in(handed(frame@).0).tick < u64::MAX,
    ensures
        ({
            let (state, inputs) = handed(frame@);
            let (next, effects) = stepped_bytes(state, inputs);
            answer@ == crate::frame::frame(next, encode_utf8(effects))
        }),
{
    let empty: Vec<u8> = Vec::new();
    let (state_bytes, input_bytes): (&[u8], &[u8]) = match split_frame(frame) {
        Some(parts) => parts,
        None => (&empty, &empty),
    };
    assert(state_bytes@ =~= handed(frame@).0);
    assert(input_bytes@ =~= handed(frame@).1);
    let mut state = State::decode(state_bytes);
    let inputs = Inputs::decode(input_bytes);
    let ghost f = state@;
    let effects = run(&mut state, &inputs);
    proof {
        lemma_effects_are_short(f, inputs.delivered_steel as nat, inputs.workers as nat);
        lemma_bytes_per_char(effects@);
    }
    encode_frame(&state.encode(), effects.as_str().as_bytes())
}

/// A frame that the host wrote is taken apart into what the host put in it.
pub proof fn frames_are_taken_apart(first: Seq<u8>, second: Seq<u8>)
    requires
        first.len() <= u32::MAX,
        second.len() <= u32::MAX,
    ensures
        blocks_in(frame(first, second)) == Some((first, second)),
{
    let whole = frame(first, second);
    let at = 4 + first.len() as int;
    lemma_byte_rooms();
    lemma_le_bytes_len(first.len(), 4);
    lemma_le_bytes_len(second.len(), 4);
    lemma_le_round_trip(first.len(), 4);
    lemma_le_round_trip(second.len(), 4);
    assert(whole.subrange(0, 4) =~= le_bytes(first.len(), 4));
    assert(whole.subrange(at, at + 4) =~= le_bytes(second.len(), 4));
    assert(whole.subrange(4, at) =~= first);
    assert(whole.subrange(at + 4, at + 4 + second.len()) =~= second);
}

/// Free slots are slots, and steel is only taken for items that are started.
proof fn lemma_free_at_most(line: Seq<nat>)
    ensures
        free(line) <= line.len(),
    decreases line.len(),
{
    if line.len() > 0 {
        lemma_free_at_most(line.drop_last());
    }
}

/// Every number of the factory still fits where it is kept after a tick, as
/// long as ticks can be counted.
pub proof fn ticks_keep_numbers_in_range(f: Factory, delivered: nat, workers: nat)
    requires
        f.wf(),
        f.tick < u64::MAX,
    ensures
        stepped(f, delivered, workers).0.wf(),
{
    let line = worked_line(f.line, workers);
    lemma_free_at_most(line);
    assert forall|i: int| 0 <= i < LINE_SLOTS implies #[trigger] worked(f.line[i], workers)
        <= u32::MAX by {}
}

/// What the host reads of the factory's answer is the next state and the
/// effects, and nothing is refused: state and effects are far below the limit.
pub proof fn answers_are_read_back(state: Seq<u8>, inputs: Seq<u8>)
    ensures
        ({
            let (next, effects) = stepped_bytes(state, inputs);
            frame_of(frame(next, encode_utf8(effects))) == Ok::<_, FrameError>(
                (next, encode_utf8(effects)),
            )
        }),
{
    let f = factory_in(state);
    let (delivered, workers) = (input_at(inputs, 8), input_at(inputs, 12));
    let (next, effects) = stepped(f, delivered, workers);
    lemma_effects_are_short(f, delivered, workers);
    lemma_bytes_per_char(effects);
    lemma_le_bytes_len(next.tick, 8);
    lemma_le_bytes_len(next.steel, 4);
    lemma_le_bytes_len(next.widgets, 4);
    lemma_le_bytes_len(next.wear, 4);
    lemma_le_bytes_len(next.line[0], 4);
    lemma_le_bytes_len(next.line[1], 4);
    lemma_le_bytes_len(next.line[2], 4);
    lemma_le_bytes_len(next.line[3], 4);
    frames_round_trip(next.bytes(), encode_utf8(effects));
}

/// Nobody present means nothing moves: the tick counts and the delivery lands,
/// but the line, the widgets and the wear stay as they were, and nothing is
/// produced.
pub proof fn nobody_present_means_nothing_moves(f: Factory, delivered: nat)
    ensures
        ({
            let (next, effects) = stepped(f, delivered, 0);
            &&& next.tick == f.tick + 1
            &&& next.steel == held(f.steel + delivered)
            &&& next.line == f.line
            &&& next.widgets == f.widgets
            &&& next.wear == f.wear
            &&& effects == request_text(next.steel)
        }),
{
}

/// How many slots hold an item.
pub open spec fn in_work(line: Seq<nat>) -> int {
    line.len() - free(line)
}

proof fn lemma_working_frees_what_it_finishes(line: Seq<nat>, workers: nat)
    ensures
        free(worked_line(line, workers)) == free(line) + finished(line, workers),
    decreases line.len(),
{
    if line.len() > 0 {
        let rest = line.drop_last();
        lemma_working_frees_what_it_finishes(rest, workers);
        assert(worked_line(line, workers).drop_last() =~= worked_line(rest, workers));
    }
}

proof fn lemma_starting_fills_what_it_starts(line: Seq<nat>, steel: nat)
    ensures
        free(started_line(line, steel)) == free(line) - started(line, steel),
    decreases line.len(),
{
    if line.len() > 0 {
        let rest = line.drop_last();
        lemma_starting_fills_what_it_starts(rest, steel);
        assert(line.take(line.len() - 1) =~= rest);
        assert forall|i: int| 0 <= i < rest.len() implies #[trigger] line.take(i) == rest.take(i) by {
            assert(line.take(i) =~= rest.take(i));
        }
        assert(started_line(line, steel).drop_last() =~= started_line(rest, steel));
    }
}

/// Nothing appears and nothing is lost: the steel that is gone is the steel of
/// the items that were started, and every item that was on the line or was
/// started is on the line or was finished.
pub proof fn steel_and_items_are_conserved(f: Factory, delivered: nat, workers: nat)
    requires
        workers > 0,
    ensures
        ({
            let (next, _) = stepped(f, delivered, workers);
            let line = worked_line(f.line, workers);
            let new = started(line, held(f.steel + delivered));
            &&& next.steel + STEEL_PER_ITEM * new == held(f.steel + delivered)
            &&& in_work(next.line) + finished(f.line, workers) == in_work(f.line) + new
        }),
{
    let stock = held(f.steel + delivered);
    let line = worked_line(f.line, workers);
    lemma_working_frees_what_it_finishes(f.line, workers);
    lemma_starting_fills_what_it_starts(line, stock);
}

/// No item stays on the line once it is finished.
pub open spec fn unfinished(line: Seq<nat>) -> bool {
    forall|i: int| 0 <= i < line.len() ==> #[trigger] line[i] < WORK_PER_ITEM
}

/// An item leaves the line as soon as it is finished, so none on it ever is.
pub proof fn the_line_holds_only_unfinished_items(f: Factory, delivered: nat, workers: nat)
    requires
        unfinished(f.line),
    ensures
        unfinished(stepped(f, delivered, workers).0.line),
{
    let line = worked_line(f.line, workers);
    assert forall|i: int| 0 <= i < f.line.len() implies #[trigger] worked(f.line[i], workers)
        < WORK_PER_ITEM by {}
}

/// The state that a factory is left in by these inputs, one tick each.
pub open spec fn driven(state: Seq<u8>, inputs: Seq<Seq<u8>>) -> Seq<u8>
    decreases inputs.len(),
{
    if inputs.len() == 0 {
        state
    } else {
        stepped_bytes(driven(state, inputs.drop_last()), inputs.last()).0
    }
}

/// Resuming from a checkpoint matches never having stopped: the state after
/// some ticks is all that the ticks behind it need.
pub proof fn resuming_matches_never_having_stopped(
    state: Seq<u8>,
    before: Seq<Seq<u8>>,
    after: Seq<Seq<u8>>,
)
    ensures
        driven(driven(state, before), after) == driven(state, before + after),
    decreases after.len(),
{
    if after.len() == 0 {
        assert(before + after =~= before);
    } else {
        resuming_matches_never_having_stopped(state, before, after.drop_last());
        assert((before + after).drop_last() =~= before + after.drop_last());
    }
}

/// The largest number that a counter of the factory can hold, at most.
pub open spec fn capped(n: int) -> int {
    if n > 0xffff_ffff {
        0xffff_ffff
    } else {
        n
    }
}

/// One where it is so.
pub open spec fn one_if(yes: bool) -> int {
    if yes {
        1
    } else {
        0
    }
}

/// Whether slot `i` holds an item that three units of progress for each worker
/// bring to a hundred.
pub open spec fn leaves_the_line(f: Factory, workers: nat, i: int) -> bool {
    f.line[i] > 0 && f.line[i] + 3 * workers >= 100
}

/// Whether slot `i` is free once the finished items have left.
pub open spec fn is_cleared(f: Factory, workers: nat, i: int) -> bool {
    f.line[i] == 0 || leaves_the_line(f, workers, i)
}

/// How many items leave the line.
pub open spec fn leaving(f: Factory, workers: nat) -> int {
    one_if(leaves_the_line(f, workers, 0)) + one_if(leaves_the_line(f, workers, 1)) + one_if(
        leaves_the_line(f, workers, 2),
    ) + one_if(leaves_the_line(f, workers, 3))
}

/// How many items of `next` were put on the line in the tick that led to it.
pub open spec fn put_on(f: Factory, workers: nat, next: Factory) -> int {
    one_if(is_cleared(f, workers, 0) && next.line[0] > 0) + one_if(
        is_cleared(f, workers, 1) && next.line[1] > 0,
    ) + one_if(is_cleared(f, workers, 2) && next.line[2] > 0) + one_if(
        is_cleared(f, workers, 3) && next.line[3] > 0,
    )
}

proof fn lemma_slot(slot: nat, workers: nat)
    requires
        workers > 0,
        slot <= u32::MAX,
    ensures
        finishes(slot, workers) == (slot > 0 && slot + 3 * workers >= 100),
        slot > 0 && slot + 3 * workers < 100 ==> worked(slot, workers) == slot + 3 * workers,
        slot == 0 || slot + 3 * workers >= 100 ==> worked(slot, workers) == 0,
{
    assert(12 * workers <= u32::MAX ==> 12 * workers / 4 == 3 * workers);
    assert(0xffff_ffffnat / 4 == 0x3fff_ffff);
}

proof fn lemma_four_slots(f: Factory, workers: nat)
    requires
        f.wf(),
        workers > 0,
    ensures
        finished(f.line, workers) == leaving(f, workers),
        forall|i: int|
            0 <= i < 4 ==> {
                &&& #[trigger] worked_line(f.line, workers)[i] == if is_cleared(f, workers, i) {
                    0
                } else {
                    f.line[i] + 3 * workers
                }
            },
{
    lemma_slot(f.line[0], workers);
    lemma_slot(f.line[1], workers);
    lemma_slot(f.line[2], workers);
    lemma_slot(f.line[3], workers);
    let (a, b, c) = (f.line.take(1), f.line.take(2), f.line.take(3));
    assert(f.line.drop_last() =~= c);
    assert(c.drop_last() =~= b);
    assert(b.drop_last() =~= a);
    assert(a.drop_last() =~= Seq::<nat>::empty());
    reveal_with_fuel(finished, 5);
}

/// A staffed factory moves every item on its line along by three units of
/// progress for each worker, and an item that gets to a hundred leaves. Where
/// there was no item, or it left, there is now none, or one just begun.
pub proof fn items_move_along_the_line(f: Factory, delivered: nat, workers: nat, i: int)
    requires
        f.wf(),
        workers > 0,
        0 <= i < 4,
    ensures
        ({
            let next = stepped(f, delivered, workers).0;
            &&& next.line.len() == 4
            &&& f.line[i] > 0 && f.line[i] + 3 * workers < 100 ==> next.line[i] == f.line[i] + 3
                * workers
            &&& f.line[i] == 0 || f.line[i] + 3 * workers >= 100 ==> next.line[i] == 0
                || next.line[i] == 1
        }),
{
    lemma_four_slots(f, workers);
    assert(worked_line(f.line, workers)[i] == worked(f.line[i], workers));
}

/// Finished widgets accumulate in the bin: the bin gains exactly as many as left
/// the line finished, up to the most that it can count, and that many is what
/// the factory says it produced.
pub proof fn finished_widgets_reach_the_bin(f: Factory, delivered: nat, workers: nat)
    requires
        f.wf(),
        workers > 0,
    ensures
        ({
            let (next, effects) = stepped(f, delivered, workers);
            let done = leaving(f, workers);
            &&& next.widgets == capped(f.widgets + done)
            &&& done == 0 ==> effects == request_text(next.steel)
            &&& done > 0 ==> effects == "produce widget "@ + decimal(done as nat) + "\n"@
                + request_text(next.steel)
        }),
{
    lemma_four_slots(f, workers);
    let next = stepped(f, delivered, workers).0;
    assert(Seq::<char>::empty() + request_text(next.steel) =~= request_text(next.steel));
}

proof fn lemma_four_starts(line: Seq<nat>, steel: nat)
    requires
        line.len() == 4,
    ensures
        ({
            let next = started_line(line, steel);
            let a = one_if(line[0] == 0);
            let b = a + one_if(line[1] == 0);
            let c = b + one_if(line[2] == 0);
            &&& next[0] == if line[0] == 0 && 0 < steel / 2 { 1 } else { line[0] }
            &&& next[1] == if line[1] == 0 && a < steel / 2 { 1 } else { line[1] }
            &&& next[2] == if line[2] == 0 && b < steel / 2 { 1 } else { line[2] }
            &&& next[3] == if line[3] == 0 && c < steel / 2 { 1 } else { line[3] }
            &&& free(line) == c + one_if(line[3] == 0)
        }),
{
    let (o, a, b, c) = (line.take(0), line.take(1), line.take(2), line.take(3));
    assert(line.drop_last() =~= c);
    assert(c.drop_last() =~= b);
    assert(b.drop_last() =~= a);
    assert(a.drop_last() =~= o);
    reveal_with_fuel(free, 5);
}

/// Steel is kept and spent to the last unit: what was there and what was
/// delivered, as far as it can be counted, is what is left and two for each item
/// put on the line. As long as there is steel for one more, no slot stays empty,
/// and the slots that come first are filled first.
pub proof fn steel_becomes_items(f: Factory, delivered: nat, workers: nat)
    requires
        f.wf(),
        workers > 0,
    ensures
        ({
            let next = stepped(f, delivered, workers).0;
            &&& next.steel + 2 * put_on(f, workers, next) == capped((f.steel + delivered) as int)
            &&& next.steel >= 2 ==> forall|i: int| 0 <= i < 4 ==> #[trigger] next.line[i] > 0
            &&& forall|i: int, j: int|
                0 <= i < j < 4 && is_cleared(f, workers, i) && is_cleared(f, workers, j)
                    && #[trigger] next.line[j] > 0 ==> #[trigger] next.line[i] > 0
        }),
{
    lemma_four_slots(f, workers);
    let line = worked_line(f.line, workers);
    let stock = held(f.steel + delivered);
    lemma_four_starts(line, stock);
    assert(line[0] == worked(f.line[0], workers));
    assert(line[1] == worked(f.line[1], workers));
    assert(line[2] == worked(f.line[2], workers));
    assert(line[3] == worked(f.line[3], workers));
}

/// Whoever is present, a tick counts, and what was delivered lands. The factory
/// asks for forty units of steel exactly where fewer than ten are left; it wears
/// only where it works; and where nobody is present it does nothing else.
pub proof fn every_tick_counts(f: Factory, delivered: nat, workers: nat)
    requires
        f.wf(),
    ensures
        ({
            let (next, effects) = stepped(f, delivered, workers);
            &&& next.tick == f.tick + 1
            &&& next.wear == if workers > 0 { capped((f.wear + 1) as int) } else { f.wear as int }
            &&& workers == 0 ==> {
                &&& next.steel == capped((f.steel + delivered) as int)
                &&& next.widgets == f.widgets
                &&& next.line == f.line
                &&& effects == request_text(next.steel)
            }
            &&& next.steel < 10 ==> request_text(next.steel) == "request steel 40\n"@
            &&& next.steel >= 10 ==> request_text(next.steel).len() == 0
        }),
{
    reveal_strlit("request steel 40\n");
    reveal_strlit("request steel ");
    reveal_strlit("\n");
    reveal_with_fuel(crate::text::numeral, 3);
    assert(decimal(40) =~= seq!['4', '0']);
    assert("request steel "@ + decimal(40) + "\n"@ =~= "request steel 40\n"@);
}

/// Too few bytes are a factory that has not run yet: it has nothing, and has
/// made nothing.
pub proof fn too_few_bytes_are_a_new_factory(bytes: Seq<u8>)
    requires
        bytes.len() < 36,
    ensures
        ({
            let f = factory_in(bytes);
            &&& f.tick == 0 && f.steel == 0 && f.widgets == 0 && f.wear == 0
            &&& f.line == seq![0nat, 0, 0, 0]
        }),
{
}

/// What the world hands over is read as it was written: a delivery and the
/// workers, behind eight bytes of time. What was not handed over is nothing.
pub proof fn inputs_are_read_as_they_were_written(
    time: Seq<u8>,
    delivered: nat,
    workers: nat,
    rest: Seq<u8>,
)
    requires
        time.len() == 8,
        delivered <= u32::MAX,
        workers <= u32::MAX,
    ensures
        input_at(time + le_bytes(delivered, 4) + le_bytes(workers, 4) + rest, 8) == delivered,
        input_at(time + le_bytes(delivered, 4) + le_bytes(workers, 4) + rest, 12) == workers,
        input_at(time + le_bytes(delivered, 4), 8) == delivered,
        input_at(time + le_bytes(delivered, 4), 12) == 0,
        input_at(time, 8) == 0,
        input_at(time, 12) == 0,
{
    lemma_byte_rooms();
    lemma_le_bytes_len(delivered, 4);
    lemma_le_bytes_len(workers, 4);
    lemma_le_round_trip(delivered, 4);
    lemma_le_round_trip(workers, 4);
    let most = time + le_bytes(delivered, 4);
    let all = most + le_bytes(workers, 4) + rest;
    assert(all.subrange(8, 12) =~= le_bytes(delivered, 4));
    assert(all.subrange(12, 16) =~= le_bytes(workers, 4));
    assert(most.subrange(8, 12) =~= le_bytes(delivered, 4));
}

/// What a tick leaves behind is what the next one reads: nothing is lost in the
/// bytes between them.
pub proof fn the_next_tick_reads_what_this_one_wrote(state: Seq<u8>, inputs: Seq<u8>)
    requires
        factory_in(state).tick < u64::MAX,
    ensures
        ({
            let (next, said) = stepped(
                factory_in(state),
                input_at(inputs, 8),
                input_at(inputs, 12),
            );
            &&& factory_in(stepped_bytes(state, inputs).0) == next
            &&& stepped_bytes(state, inputs).1 == said
        }),
{
    let f = factory_in(state);
    lemma_read_in_range(state);
    ticks_keep_numbers_in_range(f, input_at(inputs, 8), input_at(inputs, 12));
    states_round_trip(stepped(f, input_at(inputs, 8), input_at(inputs, 12)).0);
}

/// Whatever bytes are read as a factory, every number of it fits where it is kept.
proof fn lemma_read_in_range(bytes: Seq<u8>)
    ensures
        factory_in(bytes).wf(),
{
    lemma_byte_rooms();
    if bytes.len() >= STATE_BYTES {
        crate::bytes::lemma_le_value(bytes.subrange(0, 8));
        crate::bytes::lemma_le_value(bytes.subrange(8, 12));
        crate::bytes::lemma_le_value(bytes.subrange(12, 16));
        crate::bytes::lemma_le_value(bytes.subrange(16, 20));
        assert forall|i: int| 0 <= i < 4 implies #[trigger] factory_in(bytes).line[i] <= u32::MAX by {
            crate::bytes::lemma_le_value(bytes.subrange(20 + 4 * i, 24 + 4 * i));
        }
    }
}

/// A frame is taken apart only where it is one: bytes are read as two blocks only
/// where they begin with the frame of those two. Anything else is a factory that
/// has not run yet, with nobody there.
pub proof fn only_a_frame_is_taken_apart(buf: Seq<u8>)
    ensures
        blocks_in(buf) matches Some((first, second)) ==> frame(first, second).is_prefix_of(buf),
        blocks_in(buf) matches Some(parts) ==> handed(buf) == parts,
        blocks_in(buf) is None ==> handed(buf).0.len() == 0 && handed(buf).1.len() == 0,
{
    if let Some((first, second)) = blocks_in(buf) {
        let at = 4 + first.len() as int;
        lemma_byte_rooms();
        let (a, b) = (buf.subrange(0, 4), buf.subrange(at, at + 4));
        crate::bytes::lemma_le_value(a);
        crate::bytes::lemma_le_value(b);
        assert(first.len() == le_value(a));
        assert(second.len() == le_value(b));
        crate::frame::lemma_frame_len(first, second);
        let whole = frame(first, second);
        assert(le_bytes(first.len() % 0x1_0000_0000, 4) == a);
        assert(le_bytes(second.len() % 0x1_0000_0000, 4) == b);
        assert(buf.subrange(0, whole.len() as int) =~= whole);
    }
}

/// In the bytes of a state every number stands with its least significant byte
/// first: the tick, the steel, the widgets, the wear, and the four slots.
pub proof fn states_are_little_endian(bytes: Seq<u8>, i: int)
    requires
        bytes.len() >= 36,
        0 <= i < 4,
    ensures
        factory_in(bytes).steel == four_at(bytes, 8),
        factory_in(bytes).widgets == four_at(bytes, 12),
        factory_in(bytes).wear == four_at(bytes, 16),
        factory_in(bytes).line[i] == four_at(bytes, 20 + 4 * i),
        factory_in(bytes).tick == four_at(bytes, 0) + 0x1_0000_0000 * four_at(bytes, 4),
{
    lemma_four_at(bytes, 8);
    lemma_four_at(bytes, 12);
    lemma_four_at(bytes, 16);
    lemma_four_at(bytes, 20 + 4 * i);
    lemma_four_at(bytes, 4);
    let eight = bytes.subrange(0, 8);
    let four = bytes.subrange(4, 8);
    assert(eight.drop_first() =~= bytes.subrange(1, 8));
    assert(bytes.subrange(1, 8).drop_first() =~= bytes.subrange(2, 8));
    assert(bytes.subrange(2, 8).drop_first() =~= bytes.subrange(3, 8));
    assert(bytes.subrange(3, 8).drop_first() =~= four);
    reveal_with_fuel(le_value, 5);
    assert(le_value(eight) == bytes[0] + 256 * (bytes[1] + 256 * (bytes[2] + 256 * (bytes[3] + 256
        * le_value(four)))));
}

/// Four bytes as a number, the least significant first.
pub open spec fn four_at(bytes: Seq<u8>, at: int) -> int {
    bytes[at] + 0x100 * bytes[at + 1] + 0x1_0000 * bytes[at + 2] + 0x100_0000 * bytes[at + 3]
}

proof fn lemma_four_at(bytes: Seq<u8>, at: int)
    requires
        0 <= at,
        at + 4 <= bytes.len(),
    ensures
        number_at(bytes, at, 4) == four_at(bytes, at),
{
    let (a, b, c, d) = (bytes[at], bytes[at + 1], bytes[at + 2], bytes[at + 3]);
    crate::bytes::values_of_four_bytes(a, b, c, d);
    assert(bytes.subrange(at, at + 4) =~= seq![a, b, c, d]);
}

} // verus!
