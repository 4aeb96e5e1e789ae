//! The factory, run as ordinary code.
use machine_elves::factory::{run, split_frame, tick, Inputs, State, STATE_BYTES};
use machine_elves::frame::{decode_frame, encode_frame};

fn inputs(steel: u32, workers: u32) -> Inputs {
    Inputs { delivered_steel: steel, workers }
}

fn input_bytes(world_time: u64, steel: u32, workers: u32) -> Vec<u8> {
    let mut out = Vec::new();
    out.extend_from_slice(&world_time.to_le_bytes());
    out.extend_from_slice(&steel.to_le_bytes());
    out.extend_from_slice(&workers.to_le_bytes());
    out
}

#[test]
fn state_survives_a_round_trip() {
    let state = State { tick: 7, steel: 40, widgets: 3, wear: 12, line: [1, 50, 0, 99] };
    let back = State::decode(&state.encode());
    assert_eq!((back.tick, back.steel, back.widgets, back.wear), (7, 40, 3, 12));
    assert_eq!(back.line, [1, 50, 0, 99]);
}

#[test]
fn an_absent_state_starts_an_empty_factory() {
    let fresh = State::decode(&[]);
    assert_eq!((fresh.tick, fresh.steel, fresh.widgets), (0, 0, 0));
}

#[test]
fn nobody_present_means_nothing_moves() {
    let mut state = State::decode(&[]);
    state.steel = 100;
    state.line = [50, 0, 0, 0];
    run(&mut state, &inputs(0, 0));
    // The tick still counts and the delivery still lands, but no work
    // happens and half-built items keep their progress.
    assert_eq!(state.line[0], 50);
    assert_eq!(state.wear, 0);
    assert_eq!(state.steel, 100);
}

#[test]
fn steel_becomes_widgets_over_several_ticks() {
    let mut state = State::decode(&[]);
    let mut produced = 0;
    for _ in 0..40 {
        let effects = run(&mut state, &inputs(4, 4));
        if effects.contains("produce widget") {
            produced += 1;
        }
    }
    assert!(produced > 0, "nothing was ever finished");
    assert!(state.widgets > 0);
    assert!(state.tick == 40);
}

#[test]
fn asks_for_steel_when_low_and_stops_when_stocked() {
    let mut state = State::decode(&[]);
    assert!(run(&mut state, &inputs(0, 1)).contains("request steel"));

    let mut stocked = State::decode(&[]);
    stocked.steel = 500;
    assert!(!run(&mut stocked, &inputs(0, 1)).contains("request steel"));
}

#[test]
fn the_same_tick_twice_gives_the_same_answer() {
    // The property everything downstream depends on: checkpoint and resume,
    // speculative execution on a second machine, and verification by
    // re-running all assume this.
    let mut a = State::decode(&[]);
    let mut b = State::decode(&[]);
    a.steel = 20;
    b.steel = 20;
    for _ in 0..25 {
        assert_eq!(run(&mut a, &inputs(1, 3)), run(&mut b, &inputs(1, 3)));
        assert_eq!(a.encode(), b.encode());
    }
}

#[test]
fn one_tick_to_the_unit() {
    // Three workers push each item nine units; 95 and 99 are finished by it,
    // and the two slots they leave and the empty one take two units each.
    let mut state = State { tick: 0, steel: 5, widgets: 10, wear: 0, line: [95, 0, 50, 99] };
    let effects = run(&mut state, &inputs(1, 3));
    assert_eq!(effects, "produce widget 2\nrequest steel 40\n");
    assert_eq!(state.line, [1, 1, 59, 1]);
    assert_eq!((state.tick, state.steel, state.widgets, state.wear), (1, 0, 12, 1));
}

#[test]
fn steel_starts_the_first_free_slots() {
    let mut state = State { tick: 0, steel: 5, widgets: 0, wear: 0, line: [0, 7, 0, 0] };
    run(&mut state, &inputs(0, 1));
    assert_eq!(state.line, [1, 10, 1, 0]);
    assert_eq!(state.steel, 1);
}

#[test]
fn counters_stop_at_their_end() {
    let mut state =
        State { tick: 0, steel: u32::MAX - 1, widgets: u32::MAX, wear: u32::MAX, line: [99, 0, 0, 0] };
    run(&mut state, &inputs(5, u32::MAX));
    assert_eq!(state.widgets, u32::MAX);
    assert_eq!(state.wear, u32::MAX);
    assert_eq!(state.steel, u32::MAX - 8);
    assert_eq!(state.line, [1, 1, 1, 1]);
}

#[test]
fn a_state_too_short_is_no_state_and_what_follows_is_ignored() {
    let state = State { tick: 1, steel: 2, widgets: 3, wear: 4, line: [5, 6, 7, 8] };
    let mut bytes = state.encode();
    assert_eq!(bytes.len(), STATE_BYTES);
    assert_eq!(State::decode(&bytes[..STATE_BYTES - 1]).steel, 0);
    bytes.push(9);
    assert_eq!(State::decode(&bytes).line, [5, 6, 7, 8]);
}

#[test]
fn missing_inputs_are_nothing() {
    let short = Inputs::decode(&[0; 11]);
    assert_eq!((short.delivered_steel, short.workers), (0, 0));
    let whole = Inputs::decode(&input_bytes(1, 2, 3));
    assert_eq!((whole.delivered_steel, whole.workers), (2, 3));
}

#[test]
fn frames_are_taken_apart_or_refused() {
    let frame = encode_frame(b"state", b"inputs");
    assert_eq!(split_frame(&frame), Some((&b"state"[..], &b"inputs"[..])));
    assert_eq!(split_frame(&frame[..frame.len() - 1]), None);
    assert_eq!(split_frame(&[1, 0, 0]), None);
    assert_eq!(split_frame(&[255, 255, 255, 255, 0]), None);
}

#[test]
fn an_answer_is_read_by_the_host() {
    let mut state = State::decode(&[]);
    let handed = encode_frame(&state.encode(), &input_bytes(0, 4, 2));
    let (next, effects) = decode_frame(&tick(&handed)).expect("decodes");
    let said = run(&mut state, &inputs(4, 2));
    assert_eq!(next, state.encode());
    assert_eq!(effects, said.as_bytes());
    // What is no frame at all is a factory that has not run yet.
    let (fresh, _) = decode_frame(&tick(b"?")).expect("decodes");
    assert_eq!(State::decode(&fresh).tick, 1);
}

#[test]
fn resuming_the_factory_matches_never_having_stopped() {
    let step = |state: &[u8], at: u64| {
        decode_frame(&tick(&encode_frame(state, &input_bytes(at, 2, 3)))).expect("decodes").0
    };
    let mut straight = Vec::new();
    for at in 0..20u64 {
        straight = step(&straight, at);
    }
    let mut checkpointed = Vec::new();
    for at in 0..10u64 {
        checkpointed = step(&checkpointed, at);
    }
    let mut resumed = checkpointed.clone();
    for at in 10..20u64 {
        resumed = step(&resumed, at);
    }
    assert_eq!(straight, resumed);
}
