//! Runs real WebAssembly jobs, rather than testing the runner against itself.
use machine_elves::factory;
use machine_elves::frame::{decode_frame, encode_frame};
use machine_elves::job::{read_answer, run_job, Job, JobError, Outcome, DEFAULT_FUEL};
use sha2::Digest;

/// The factory, as a job.
const FACTORY: &str = r#"(module
  (memory (export "memory") 1)
  (data (i32.const 16) "produce widget ")
  (data (i32.const 48) "request steel 40\n")
  (global $heap (mut i32) (i32.const 1024))

  (func (export "alloc") (param $len i32) (result i32)
    (local $ptr i32)
    (local.set $ptr (global.get $heap))
    (global.set $heap (i32.add (global.get $heap) (local.get $len)))
    (local.get $ptr))

  ;; The smaller of a sum and the largest number of thirty-two bits.
  (func $held (param $n i64) (result i32)
    (if (result i32) (i64.gt_u (local.get $n) (i64.const 0xffffffff))
      (then (i32.const -1))
      (else (i32.wrap_i64 (local.get $n)))))

  (func $sum (param $a i32) (param $b i64) (result i32)
    (call $held (i64.add (i64.extend_i32_u (local.get $a)) (local.get $b))))

  (func (export "tick") (param $ptr i32) (param $len i32) (result i64)
    (local $slen i32) (local $inputs i32) (local $ilen i32)
    (local $steel i32) (local $workers i32) (local $delivered i32)
    (local $push i64) (local $slot i32) (local $at i32) (local $done i32) (local $said i32)
    ;; The answer is made at 32768: a length, the state, a length, the effects.
    (local.set $slen (i32.load (local.get $ptr)))
    (local.set $inputs (i32.add (local.get $ptr) (i32.add (i32.const 4) (local.get $slen))))
    (local.set $ilen (i32.load (local.get $inputs)))
    (local.set $inputs (i32.add (local.get $inputs) (i32.const 4)))
    (if (i32.ge_u (local.get $slen) (i32.const 36))
      (then (memory.copy (i32.const 32772) (i32.add (local.get $ptr) (i32.const 4)) (i32.const 36))))
    (if (i32.ge_u (local.get $ilen) (i32.const 12))
      (then (local.set $delivered (i32.load offset=8 (local.get $inputs)))))
    (if (i32.ge_u (local.get $ilen) (i32.const 16))
      (then (local.set $workers (i32.load offset=12 (local.get $inputs)))))
    (i64.store (i32.const 32772) (i64.add (i64.load (i32.const 32772)) (i64.const 1)))
    (local.set $steel
      (call $sum (i32.load (i32.const 32780)) (i64.extend_i32_u (local.get $delivered))))
    (local.set $said (i32.const 32812))

    (if (local.get $workers)
      (then
        (local.set $push
          (i64.div_u
            (i64.extend_i32_u
              (call $held (i64.mul (i64.const 12) (i64.extend_i32_u (local.get $workers)))))
            (i64.const 4)))
        (if (i64.eqz (local.get $push)) (then (local.set $push (i64.const 1))))
        (local.set $at (i32.const 32792))
        (loop $next
          (local.set $slot (i32.load (local.get $at)))
          (if (local.get $slot)
            (then
              (local.set $slot (call $sum (local.get $slot) (local.get $push)))
              (if (i32.ge_u (local.get $slot) (i32.const 100))
                (then
                  (local.set $slot (i32.const 0))
                  (local.set $done (i32.add (local.get $done) (i32.const 1)))))
              (i32.store (local.get $at) (local.get $slot))))
          (local.set $at (i32.add (local.get $at) (i32.const 4)))
          (br_if $next (i32.lt_u (local.get $at) (i32.const 32808))))
        (if (local.get $done)
          (then
            (i32.store (i32.const 32784)
              (call $sum (i32.load (i32.const 32784)) (i64.extend_i32_u (local.get $done))))
            (memory.copy (local.get $said) (i32.const 16) (i32.const 15))
            (i32.store8 offset=15 (local.get $said) (i32.add (i32.const 48) (local.get $done)))
            (i32.store8 offset=16 (local.get $said) (i32.const 10))
            (local.set $said (i32.add (local.get $said) (i32.const 17)))))
        (local.set $at (i32.const 32792))
        (loop $start
          (if (i32.and (i32.eqz (i32.load (local.get $at)))
                       (i32.ge_u (local.get $steel) (i32.const 2)))
            (then
              (local.set $steel (i32.sub (local.get $steel) (i32.const 2)))
              (i32.store (local.get $at) (i32.const 1))))
          (local.set $at (i32.add (local.get $at) (i32.const 4)))
          (br_if $start (i32.lt_u (local.get $at) (i32.const 32808))))
        (i32.store (i32.const 32788) (call $sum (i32.load (i32.const 32788)) (i64.const 1)))))

    (if (i32.lt_u (local.get $steel) (i32.const 10))
      (then
        (memory.copy (local.get $said) (i32.const 48) (i32.const 17))
        (local.set $said (i32.add (local.get $said) (i32.const 17)))))
    (i32.store (i32.const 32780) (local.get $steel))
    (i32.store (i32.const 32768) (i32.const 36))
    (i32.store (i32.const 32808) (i32.sub (local.get $said) (i32.const 32812)))
    (i64.or (i64.shl (i64.const 32768) (i64.const 32))
            (i64.extend_i32_u (i32.sub (local.get $said) (i32.const 32768))))))"#;

/// A job that loops forever.
const RUNAWAY: &str = r#"(module
  (memory (export "memory") 1)
  (func (export "alloc") (param i32) (result i32) i32.const 0)
  (func (export "tick") (param i32 i32) (result i64) (loop $spin (br $spin)) unreachable))"#;

/// A job that tries to eat all the memory it can.
const GLUTTON: &str = r#"(module
  (memory (export "memory") 1)
  (func (export "alloc") (param i32) (result i32) i32.const 0)
  (func (export "tick") (param i32 i32) (result i64)
    (local $old i32)
    (loop $more
      (local.set $old (memory.grow (i32.const 64)))
      (if (i32.eq (local.get $old) (i32.const -1)) (then unreachable))
      (i32.store8 (i32.shl (local.get $old) (i32.const 16)) (i32.const 1))
      (br $more))
    unreachable))"#;

fn inputs(world_time: u64, steel: u32, workers: u32) -> Vec<u8> {
    let mut out = Vec::new();
    out.extend_from_slice(&world_time.to_le_bytes());
    out.extend_from_slice(&steel.to_le_bytes());
    out.extend_from_slice(&workers.to_le_bytes());
    out
}

fn load(code: &str, fuel: u64) -> Job {
    Job::load(code.as_bytes(), fuel).expect("loads")
}

/// A job whose `alloc` and `tick` have these bodies.
fn small(alloc: &str, tick: &str) -> String {
    format!(
        r#"(module (memory (export "memory") 1)
           (func (export "alloc") (param i32) (result i32) {alloc})
           (func (export "tick") (param i32 i32) (result i64) {tick}))"#
    )
}

fn failure(code: &str) -> JobError {
    load(code, DEFAULT_FUEL).tick(b"", b"").expect_err("must fail")
}

#[test]
fn a_factory_turns_steel_into_widgets_over_time() {
    let factory = load(FACTORY, DEFAULT_FUEL);

    let mut state = Vec::new();
    let mut produced = 0;
    for tick in 0..40u64 {
        let outcome = factory.tick(&state, &inputs(tick, 4, 4)).expect("tick succeeds");
        if String::from_utf8_lossy(&outcome.effects).contains("produce widget") {
            produced += 1;
        }
        state = outcome.state;
    }
    assert!(produced > 0, "the factory never finished anything");
    assert!(!state.is_empty(), "the factory kept no state");
}

#[test]
fn the_same_tick_from_the_same_state_gives_identical_bytes() {
    // The property the whole design rests on. Checkpoint-and-resume,
    // speculative execution on a second machine, and verification by re-running
    // are all only sound if this holds byte for byte.
    let factory = load(FACTORY, DEFAULT_FUEL);

    let mut state = Vec::new();
    for tick in 0..10u64 {
        state = factory.tick(&state, &inputs(tick, 3, 2)).expect("tick").state;
    }

    let first = factory.tick(&state, &inputs(99, 3, 2)).expect("tick");
    let second = factory.tick(&state, &inputs(99, 3, 2)).expect("tick");
    assert_eq!(first.state, second.state);
    assert_eq!(first.effects, second.effects);
    assert_eq!(first.fuel_used, second.fuel_used);
}

#[test]
fn a_job_cannot_smuggle_anything_between_ticks() {
    // A fresh instance every tick means globals and heap do not carry over, so
    // the rule that only state survives is a fact about how jobs are run rather
    // than something a job could choose to break.
    let factory = load(FACTORY, DEFAULT_FUEL);

    let empty = Vec::new();
    let a = factory.tick(&empty, &inputs(0, 5, 2)).expect("tick");
    // Ten unrelated ticks in between; if anything persisted inside the module,
    // the next result from the same state would differ.
    for tick in 0..10u64 {
        let _ = factory.tick(&a.state, &inputs(tick, 9, 4)).expect("tick");
    }
    let b = factory.tick(&empty, &inputs(0, 5, 2)).expect("tick");
    assert_eq!(a.state, b.state);
    assert_eq!(a.effects, b.effects);
}

#[test]
fn resuming_from_a_checkpoint_matches_never_having_stopped() {
    // Migration in miniature: carry the state to a freshly loaded runner and
    // the world continues exactly as if nothing happened.
    let uninterrupted = load(FACTORY, DEFAULT_FUEL);
    let mut straight = Vec::new();
    for tick in 0..20u64 {
        straight = uninterrupted.tick(&straight, &inputs(tick, 2, 3)).expect("tick").state;
    }

    let first_half = load(FACTORY, DEFAULT_FUEL);
    let mut checkpointed = Vec::new();
    for tick in 0..10u64 {
        checkpointed = first_half.tick(&checkpointed, &inputs(tick, 2, 3)).expect("tick").state;
    }
    drop(first_half);

    let second_half = load(FACTORY, DEFAULT_FUEL);
    for tick in 10..20u64 {
        checkpointed = second_half.tick(&checkpointed, &inputs(tick, 2, 3)).expect("tick").state;
    }

    assert_eq!(straight, checkpointed);
}

#[test]
fn a_runaway_job_is_stopped_rather_than_taking_the_machine() {
    let runaway = load(RUNAWAY, 5_000_000);

    let error =
        runaway.tick(b"", b"").expect_err("a job that never returns must not be allowed to");
    let message = error.message();
    assert!(message.contains("exhausted"), "stopped for the wrong reason: {message}");
    assert_eq!(message, "job exhausted its 5000000 fuel and was stopped");
}

#[test]
fn the_ceiling_is_on_work_rather_than_on_time() {
    // Fuel counts instructions, so a busy host and an idle one stop the same
    // job at the same point. A wall-clock limit would make two machines
    // disagree about whether a tick completed.
    for fuel in [1_000_000u64, 3_000_000, 9_000_000] {
        let job = load(RUNAWAY, fuel);
        assert!(job.tick(b"", b"").is_err(), "{fuel} fuel was not a ceiling");
    }
}

#[test]
fn a_job_that_wants_imports_is_refused_at_load() {
    // Every route out of the sandbox, be it clock, randomness, network or
    // filesystem, would arrive as an import, so refusing all of them is the
    // whole boundary.
    let wat = br#"(module
        (import "host" "now" (func $now))
        (memory (export "memory") 1)
        (func (export "alloc") (param i32) (result i32) i32.const 0)
        (func (export "tick") (param i32 i32) (result i64) i64.const 0))"#;

    // `Job` holds a runtime and is not Debug, so the failure is matched rather
    // than unwrapped.
    let message = match Job::load(wat, DEFAULT_FUEL) {
        Ok(_) => panic!("a job importing host::now was accepted"),
        Err(error) => error.message(),
    };
    assert!(
        message.contains("host::now") || message.contains("import"),
        "refused for the wrong reason: {message}"
    );
    assert_eq!(message, "job wants 1 import(s) and jobs get none: host::now");
}

#[test]
fn a_greedy_job_is_stopped_before_it_exhausts_the_host() {
    // Fuel bounds instructions and nothing else. Without a separate memory
    // ceiling a job can stay well inside its CPU budget and still take the
    // machine down.
    //
    // Generous fuel on purpose: this must fail for running out of memory, not
    // for running out of instructions, or the test proves the wrong thing.
    let job = Job::load_with(GLUTTON.as_bytes(), 5_000_000_000, 16 * 1024 * 1024).expect("loads");
    let error = job.tick(b"", b"").expect_err("must be stopped");
    let message = error.message();
    assert!(
        !message.contains("exhausted its"),
        "stopped by the fuel ceiling rather than the memory ceiling: {message}"
    );
    assert!(matches!(error, JobError::Trapped(_)));
}

#[test]
fn the_memory_ceiling_holds_at_several_sizes() {
    for limit in [8 * 1024 * 1024usize, 32 * 1024 * 1024, 64 * 1024 * 1024] {
        let job = Job::load_with(GLUTTON.as_bytes(), 5_000_000_000, limit).expect("loads");
        assert!(job.tick(b"", b"").is_err(), "{limit} bytes was not a ceiling");
    }
}

#[test]
fn an_ordinary_job_is_untroubled_by_the_ceiling() {
    // A limit that also stops honest work is not a limit, it is a bug.
    let job = Job::load_with(FACTORY.as_bytes(), DEFAULT_FUEL, 2 * 1024 * 1024).expect("loads");
    let mut state = Vec::new();
    for tick in 0..30u64 {
        state = job.tick(&state, &inputs(tick, 4, 3)).expect("honest work").state;
    }
    assert!(!state.is_empty());
}

#[test]
fn the_job_and_the_library_agree_on_the_factory() {
    let job = load(FACTORY, DEFAULT_FUEL);
    let mut state = Vec::new();
    for tick in 0..60u64 {
        let given = inputs(tick, (tick % 7) as u32, (tick % 5) as u32 * 9);
        let outcome = job.tick(&state, &given).expect("tick");
        let answer = factory::tick(&encode_frame(&state, &given));
        let (next, effects) = decode_frame(&answer).expect("decodes");
        assert_eq!((&outcome.state, &outcome.effects), (&next, &effects));
        state = next;
    }
    let most = inputs(0, u32::MAX, u32::MAX);
    let outcome = job.tick(&state, &most).expect("tick");
    let (next, effects) = decode_frame(&factory::tick(&encode_frame(&state, &most))).expect("decodes");
    assert_eq!((outcome.state, outcome.effects), (next, effects));
}

#[test]
fn fuel_is_counted_and_a_little_less_is_too_little() {
    let whole = load(FACTORY, DEFAULT_FUEL).tick(b"", &inputs(0, 4, 3)).expect("tick");
    assert!(whole.fuel_used > 0 && whole.fuel_used < DEFAULT_FUEL);
    let exact = load(FACTORY, whole.fuel_used + 1).tick(b"", &inputs(0, 4, 3)).expect("tick");
    assert_eq!(exact, Outcome { fuel_used: whole.fuel_used, ..whole });
    let error = load(FACTORY, exact.fuel_used / 2).tick(b"", &inputs(0, 4, 3)).expect_err("stops");
    assert!(matches!(error, JobError::Exhausted { .. } | JobError::AllocFailed(_)));
}

#[test]
fn a_job_is_known_by_its_code() {
    let digest: [u8; 32] = sha2::Sha256::digest(RUNAWAY.as_bytes()).into();
    assert_eq!(load(RUNAWAY, 1).id(), &digest);
    assert_eq!(load(RUNAWAY, 1).id(), load(RUNAWAY, 2).id());
    assert_ne!(load(RUNAWAY, 1).id(), load(GLUTTON, 1).id());
}

#[test]
fn code_that_is_no_code_is_refused() {
    match Job::load(b"not wasm", DEFAULT_FUEL) {
        Ok(_) => panic!("nonsense was accepted"),
        Err(error) => {
            assert!(matches!(error, JobError::Code(_)));
            assert!(!error.message().is_empty());
        }
    }
}

#[test]
fn a_job_that_cannot_be_started_says_so() {
    let traps = r#"(module (memory (export "memory") 1) (func $go unreachable) (start $go))"#;
    let error = failure(traps);
    assert!(error.message().starts_with("instantiating the job: "));
    // A memory that starts over the ceiling is refused at the start too.
    let wide = r#"(module (memory (export "memory") 64))"#;
    let job = Job::load_with(wide.as_bytes(), DEFAULT_FUEL, 65536).expect("loads");
    assert!(matches!(job.tick(b"", b"").unwrap_err(), JobError::Start(_)));
}

#[test]
fn missing_exports_are_named() {
    assert_eq!(failure("(module)").message(), "job exports no memory");
    let memory = r#"(module (memory (export "memory") 1))"#;
    assert!(failure(memory).message().starts_with("job exports no alloc(len) -> ptr: "));
    let alloc = r#"(module (memory (export "memory") 1)
        (func (export "alloc") (param i32) (result i32) i32.const 0))"#;
    assert!(failure(alloc).message().starts_with("job exports no tick(ptr, len) -> packed: "));
    let wrong = r#"(module (memory (export "memory") 1)
        (func (export "alloc") (result i32) i32.const 0))"#;
    assert!(matches!(failure(wrong), JobError::NoAlloc(_)));
}

#[test]
fn a_hostile_guest_is_refused_whatever_it_answers() {
    let fine = "i32.const 0";
    assert!(matches!(failure(&small("unreachable", "i64.const 0")), JobError::AllocFailed(_)));
    let outside = failure(&small("i32.const 65530", "i64.const 0"));
    assert!(outside
        .message()
        .starts_with("job's alloc returned a buffer that does not fit its claim: "));
    assert!(failure(&small(fine, "unreachable")).message().starts_with("job trapped: "));
    let huge = failure(&small(fine, "i64.const 0x0000000001000001"));
    assert_eq!(huge.message(), "job returned 16777217 bytes, over the 16777216 limit");
    let beyond = failure(&small(fine, "i64.const 0x0000fff800000010"));
    assert_eq!(beyond.message(), "job returned a buffer running past the end of its memory");
    let nonsense = failure(&small(fine, "i64.const 0x0000000000000002"));
    assert_eq!(nonsense.message(), "truncated length header");
}

#[test]
fn an_answer_lies_where_it_says() {
    let mut memory = vec![0u8; 64];
    let frame = encode_frame(b"st", b"eff");
    memory[10..10 + frame.len()].copy_from_slice(&frame);
    let packed = (10u64 << 32) | frame.len() as u64;
    assert_eq!(read_answer(packed, &memory).expect("reads"), (b"st".to_vec(), b"eff".to_vec()));
    assert!(matches!(read_answer(packed, &memory[..16]), Err(JobError::AnswerPastEnd)));
    assert!(matches!(read_answer(packed - 1, &memory), Err(JobError::Answer(_))));
}

#[test]
fn a_trial_shows_what_a_job_did() {
    let job = load(FACTORY, DEFAULT_FUEL);
    let trial = run_job(&job, 20);
    assert!(trial.failed.is_none());
    assert_eq!(trial.lines[0], "  tick   0  request steel 40");
    let last = trial.lines.last().expect("a summary");
    assert!(last.starts_with("\n20 ticks, 36 bytes of state, "), "{last}");
    assert!(trial.lines.iter().any(|l| l.contains("produce widget")));

    let nothing = run_job(&job, 0);
    assert_eq!(nothing.lines, ["\n0 ticks, 0 bytes of state, 0 fuel (0 per tick)"]);

    let stopped = run_job(&load(RUNAWAY, 1_000), 5);
    assert!(stopped.lines.is_empty());
    assert!(matches!(stopped.failed, Some(JobError::Exhausted { fuel: 1_000 })));
}

#[test]
fn effects_that_are_not_text_are_shown_as_far_as_they_are() {
    // An answer with no state and the effects "a", a byte that is no text, and
    // "b" on the next line.
    let code = r#"(module (memory (export "memory") 1)
        (data (i32.const 100) "\00\00\00\00\04\00\00\00a\ff\nb")
        (func (export "alloc") (param i32) (result i32) i32.const 0)
        (func (export "tick") (param i32 i32) (result i64) i64.const 0x000000640000000c))"#;
    let trial = run_job(&load(code, DEFAULT_FUEL), 1);
    assert_eq!(&trial.lines[..2], ["  tick   0  a\u{fffd}", "  tick   0  b"]);
}

#[test]
fn a_ceiling_may_be_larger_than_any_memory() {
    let roomy = Job::load_with(FACTORY.as_bytes(), DEFAULT_FUEL, usize::MAX);
    assert!(roomy.is_ok(), "a ceiling is no demand for that much memory");
    assert!(Job::load_with(b"not a job", DEFAULT_FUEL, usize::MAX).is_err());
}
