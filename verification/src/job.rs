//! Running someone else's code on your machine, safely and repeatably.
//!
//! A job is not a program that starts, runs, and finishes. It is woken up,
//! handed everything it knows, does a small amount of work, hands everything
//! back, and sleeps again. The thing passed back and forth is an opaque blob of
//! state; each wake-up is a tick.
//!
//! ```text
//! tick(state, inputs) -> (state, effects)
//! ```
//!
//! Checkpointing is keeping the state between ticks. Migration is sending it
//! elsewhere. Speculative resume is another node simply running the next ticks.
use crate::bytes::{le_bytes, lemma_le_bytes_len, put_u32_le, put_u64_le};
use crate::digest::{sha256, sha256_of};
use crate::frame::{decode_frame, encode_frame, frame, frame_of, lemma_frame_len, FrameError, MAX_BLOB};
use crate::guest::{
    alloc_export, alloc_lookup_may_return, alloc_may_return, call_alloc, call_tick, compile,
    compile_may_return, counts_fuel, engine_may_return, error_text, find_alloc, find_memory,
    find_tick, fuel_left, get_fuel, import_texts, instance_code, instantiate, is_unused,
    list_imports, memory_data, memory_export, meters_fuel, module_code, new_engine, new_store,
    reserved_space, set_fuel, start_may_return, store_limits, tick_export, tick_lookup_may_return,
    tick_may_return, unspent, wasm_err, wasm_imports, write_may_return, write_memory, Guest,
};
use crate::text::{
    decimal, decimal_text, join_text, joined, lines, lines_of, pad_text, padded, push_decimal, texts,
};
use crate::utf8::{lossy_text, read_lossy};
use vstd::prelude::*;
use wasmtime::Instance;

verus! {

/// CPU ceiling for one tick, in fuel units.
///
/// Fuel is consumed per instruction, so this is a bound on work rather than on
/// time, which is the point. A time limit would make execution depend on how
/// busy the host was, and two nodes running the same tick would disagree about
/// whether it finished.
pub const DEFAULT_FUEL: u64 = 50_000_000;

/// Memory ceiling for one tick.
///
/// Fuel bounds instructions and says nothing whatsoever about memory, so
/// without this a job can allocate until the host runs out. Two ceilings are
/// needed because there are two ways to consume a host.
pub const DEFAULT_MEMORY: usize = 67_108_864;

/// A job that has been loaded and may be run.
pub struct Job {
    engine: wasmtime::Engine,
    module: wasmtime::Module,
    id: [u8; 32],
    fuel: u64,
    memory: usize,
}

/// What one tick came to.
#[derive(Debug, PartialEq)]
pub struct Outcome {
    /// The job's new state. Opaque: the host moves these bytes and never
    /// interprets them.
    pub state: Vec<u8>,
    /// What the job wants the world to do, which the host may apply or refuse.
    pub effects: Vec<u8>,
    /// Fuel actually consumed, so an over-budget job can be seen coming before
    /// it starts failing.
    pub fuel_used: u64,
}

/// Why a job could not be loaded, or a tick came to nothing.
///
/// Where the runtime gave the reason, its words are kept.
#[derive(Debug)]
pub enum JobError {
    /// The runtime could not be set up.
    Engine(String),
    /// The code could not be compiled.
    Code(String),
    /// The code asks for imports, and jobs get none.
    WantsImports(Vec<String>),
    /// The fuel could not be set.
    Fuel(String),
    /// The code could not be started.
    Start(String),
    NoMemory,
    NoAlloc(String),
    NoTick(String),
    /// State and inputs together are more than a job can be handed.
    InputTooLarge,
    AllocFailed(String),
    /// The buffer that the job offered does not lie in its memory.
    BadBuffer(String),
    /// The job used up its fuel.
    Exhausted { fuel: u64 },
    Trapped(String),
    /// The job claims an answer over the limit.
    AnswerOverLimit { len: usize },
    /// The answer would end past the end of the address space.
    AnswerOverflows,
    /// The answer would end past the end of the job's memory.
    AnswerPastEnd,
    /// The answer is not a frame.
    Answer(FrameError),
}

impl JobError {
    /// The reason in words, the runtime's own words last.
    pub open spec fn spec_message(self) -> Seq<char> {
        match self {
            JobError::Engine(why) => why@,
            JobError::Code(why) => why@,
            JobError::WantsImports(names) => "job wants "@ + decimal(names@.len())
                + " import(s) and jobs get none: "@ + joined(texts(names@), ", "@),
            JobError::Fuel(why) => why@,
            JobError::Start(why) => "instantiating the job: "@ + why@,
            JobError::NoMemory => "job exports no memory"@,
            JobError::NoAlloc(why) => "job exports no alloc(len) -> ptr: "@ + why@,
            JobError::NoTick(why) => "job exports no tick(ptr, len) -> packed: "@ + why@,
            JobError::InputTooLarge =>
                "input frame too large: out of range integral type conversion attempted"@,
            JobError::AllocFailed(why) => "job's alloc failed: "@ + why@,
            JobError::BadBuffer(why) =>
                "job's alloc returned a buffer that does not fit its claim: "@ + why@,
            JobError::Exhausted { fuel } => "job exhausted its "@ + decimal(fuel as nat)
                + " fuel and was stopped"@,
            JobError::Trapped(why) => "job trapped: "@ + why@,
            JobError::AnswerOverLimit { len } => "job returned "@ + decimal(len as nat)
                + " bytes, over the "@ + decimal(MAX_BLOB as nat) + " limit"@,
            JobError::AnswerOverflows =>
                "job returned a buffer that overflows its own address space"@,
            JobError::AnswerPastEnd =>
                "job returned a buffer running past the end of its memory"@,
            JobError::Answer(error) => error.spec_message(),
        }
    }

    /// The reason in words, the runtime's own words last.
    pub fn message(&self) -> (text: String)
        ensures
            text@ == self.spec_message(),
    {
        match self {
            JobError::Engine(why) => why.clone(),
            JobError::Code(why) => why.clone(),
            JobError::WantsImports(names) => {
                let mut text = "job wants ".to_owned();
                push_decimal(&mut text, names.len() as u128);
                text.push_str(" import(s) and jobs get none: ");
                text.push_str(&join_text(names, ", "));
                text
            },
            JobError::Fuel(why) => why.clone(),
            JobError::Start(why) => with_cause("instantiating the job: ", why),
            JobError::NoMemory => "job exports no memory".to_owned(),
            JobError::NoAlloc(why) => with_cause("job exports no alloc(len) -> ptr: ", why),
            JobError::NoTick(why) => with_cause("job exports no tick(ptr, len) -> packed: ", why),
            JobError::InputTooLarge =>
                "input frame too large: out of range integral type conversion attempted".to_owned(),
            JobError::AllocFailed(why) => with_cause("job's alloc failed: ", why),
            JobError::BadBuffer(why) => with_cause(
                "job's alloc returned a buffer that does not fit its claim: ",
                why,
            ),
            JobError::Exhausted { fuel } => {
                let mut text = "job exhausted its ".to_owned();
                push_decimal(&mut text, *fuel as u128);
                text.push_str(" fuel and was stopped");
                text
            },
            JobError::Trapped(why) => with_cause("job trapped: ", why),
            JobError::AnswerOverLimit { len } => {
                let mut text = "job returned ".to_owned();
                push_decimal(&mut text, *len as u128);
                text.push_str(" bytes, over the ");
                push_decimal(&mut text, MAX_BLOB as u128);
                text.push_str(" limit");
                text
            },
            JobError::AnswerOverflows =>
                "job returned a buffer that overflows its own address space".to_owned(),
            JobError::AnswerPastEnd =>
                "job returned a buffer running past the end of its memory".to_owned(),
            JobError::Answer(error) => error.message(),
        }
    }
}

fn with_cause(what: &str, why: &str) -> (text: String)
    ensures
        text@ == what@ + why@,
{
    let mut text = what.to_owned();
    text.push_str(why);
    text
}

/// How an import is named: `module::name`.
pub open spec fn import_name(import: (Seq<char>, Seq<char>)) -> Seq<char> {
    import.0 + "::"@ + import.1
}

/// The names of the imports, in order.
pub open spec fn import_names(imports: Seq<(Seq<char>, Seq<char>)>) -> Seq<Seq<char>> {
    Seq::new(imports.len(), |i: int| import_name(imports[i]))
}

fn name_imports(imports: &[(String, String)]) -> (names: Vec<String>)
    ensures
        texts(names@) == import_names(import_texts(imports@)),
{
    let mut names: Vec<String> = Vec::new();
    let mut at: usize = 0;
    while at < imports.len()
        invariant
            at <= imports@.len(),
            names@.len() == at,
            forall|i: int|
                0 <= i < at ==> #[trigger] names@[i]@ == import_name(import_texts(imports@)[i]),
        decreases imports@.len() - at,
    {
        let mut name = imports[at].0.clone();
        name.push_str("::");
        name.push_str(&imports[at].1);
        names.push(name);
        at += 1;
    }
    assert(texts(names@) =~= import_names(import_texts(imports@)));
    names
}

/// What the host makes of an answer: where it says it lies, cut out of the
/// guest's memory, and taken apart.
///
/// The guest chose these numbers, and they address the host's own allocation,
/// so each is checked before it is used.
pub open spec fn answer_of(packed: u64, memory: Seq<u8>) -> Result<
    (Seq<u8>, Seq<u8>),
    JobError,
> {
    let ptr = packed as nat / 0x1_0000_0000;
    let len = packed as nat % 0x1_0000_0000;
    if len > MAX_BLOB {
        Err(JobError::AnswerOverLimit { len: len as usize })
    } else if ptr + len > usize::MAX {
        Err(JobError::AnswerOverflows)
    } else if ptr + len > memory.len() {
        Err(JobError::AnswerPastEnd)
    } else {
        match frame_of(memory.subrange(ptr as int, (ptr + len) as int)) {
            Ok(pair) => Ok(pair),
            Err(error) => Err(JobError::Answer(error)),
        }
    }
}

/// The bytes that an answer holds, or why it holds none.
pub open spec fn answer_bytes(res: Result<(Vec<u8>, Vec<u8>), JobError>) -> Result<
    (Seq<u8>, Seq<u8>),
    JobError,
> {
    match res {
        Ok((state, effects)) => Ok((state@, effects@)),
        Err(error) => Err(error),
    }
}

/// Takes an answer apart: `packed` says where in `memory` it lies, as the
/// pointer in the high half and the length in the low half.
pub fn read_answer(packed: u64, memory: &[u8]) -> (res: Result<(Vec<u8>, Vec<u8>), JobError>)
    ensures
        answer_bytes(res) == answer_of(packed, memory@),
{
    let ptr = (packed / 0x1_0000_0000) as usize;
    let len = (packed % 0x1_0000_0000) as usize;
    if len > MAX_BLOB {
        return Err(JobError::AnswerOverLimit { len });
    }
    let end = match ptr.checked_add(len) {
        Some(end) => end,
        None => return Err(JobError::AnswerOverflows),
    };
    if end > memory.len() {
        return Err(JobError::AnswerPastEnd);
    }
    match decode_frame(&memory[ptr..end]) {
        Ok(pair) => Ok(pair),
        Err(error) => Err(JobError::Answer(error)),
    }
}

/// What a run that ended without an answer comes to: a job with no fuel left
/// ran away, and any other has a bug.
pub open spec fn trap_verdict(fuel: u64, remaining: u64, why: Seq<char>, error: JobError) -> bool {
    if remaining == 0 {
        error == (JobError::Exhausted { fuel })
    } else {
        error matches JobError::Trapped(text) && text@ == why
    }
}

/// Tells a runaway from a bug. Fuel exhaustion arrives as a trap like any other,
/// so the remaining fuel is what distinguishes them.
pub fn judge_trap(fuel: u64, remaining: u64, why: String) -> (error: JobError)
    ensures
        trap_verdict(fuel, remaining, why@, error),
{
    if remaining == 0 {
        JobError::Exhausted { fuel }
    } else {
        JobError::Trapped(why)
    }
}

/// One run of a guest, stage by stage: as it started, with room asked for and
/// an offer made or not, with its input in place, and as it ended, with or
/// without an answer.
pub struct Run {
    pub fresh: Guest,
    pub offer: Result<u32, wasmtime::Error>,
    pub offered: Guest,
    pub before: Guest,
    pub answer: Result<u64, wasmtime::Error>,
    pub after: Guest,
}

impl Run {
    /// Where the guest offered room.
    pub open spec fn ptr(self) -> u32 {
        self.offer->Ok_0
    }

    /// Whether `handed` did not fit where the guest offered room, and writing it
    /// there was refused for the reason `stopped`.
    pub open spec fn rejects(self, handed: Seq<u8>, stopped: wasmtime::Error) -> bool {
        &&& self.offer is Ok
        &&& self.ptr() + handed.len() > self.offered.bytes().len()
        &&& write_may_return(
            self.offered.store,
            self.offered.memory,
            self.ptr() as usize,
            handed,
            Err(stopped),
            self.before.store,
        )
    }
}

/// Whether `instance` exports a memory but no function to ask for room with, and
/// looking for one was answered with `missing`.
pub open spec fn lacks_alloc(instance: Instance, missing: wasmtime::Error) -> bool {
    &&& memory_export(instance, "memory"@) is Some
    &&& alloc_export(instance, "alloc"@) is None
    &&& alloc_lookup_may_return(instance, "alloc"@, Err(missing))
}

/// Whether `instance` exports a memory and a function to ask for room with but no
/// function to run, and looking for one was answered with `missing`.
pub open spec fn lacks_tick(instance: Instance, missing: wasmtime::Error) -> bool {
    &&& memory_export(instance, "memory"@) is Some
    &&& alloc_export(instance, "alloc"@) is Some
    &&& tick_export(instance, "tick"@) is None
    &&& tick_lookup_may_return(instance, "tick"@, Err(missing))
}

impl Job {
    /// The code that the job runs.
    pub closed spec fn code(&self) -> Seq<u8> {
        module_code(self.module)
    }

    /// The fuel that one tick may use.
    pub closed spec fn fuel(&self) -> u64 {
        self.fuel
    }

    /// The bytes that the job's memory may grow to.
    pub closed spec fn memory(&self) -> usize {
        self.memory
    }

    /// The job imports nothing, spends fuel, is known by its code, and is given
    /// no more address space than it can fill.
    pub closed spec fn wf(&self) -> bool {
        &&& wasm_imports(module_code(self.module)).len() == 0
        &&& meters_fuel(self.engine)
        &&& reserved_space(self.engine) == reservation(self.memory)
        &&& self.id@ == sha256_of(module_code(self.module))
    }

    /// Loads a job from its code, with the default memory ceiling.
    pub fn load(code: &[u8], fuel: u64) -> (res: Result<Job, JobError>)
        ensures
            loaded(code@, fuel, DEFAULT_MEMORY, res),
    {
        Job::load_with(code, fuel, DEFAULT_MEMORY)
    }

    /// Loads a job from its code.
    ///
    /// A job that imports nothing cannot call anything: no clock, no
    /// randomness, no network, no filesystem, no host functions of any kind.
    /// "Receive input, compute, return output" is then literally true rather
    /// than a policy someone has to enforce.
    pub fn load_with(code: &[u8], fuel: u64, memory: usize) -> (res: Result<Job, JobError>)
        ensures
            loaded(code@, fuel, memory, res),
    {
        let space: u64 = if memory as u64 <= 0x1_0000_0000 {
            memory as u64
        } else {
            0x1_0000_0000
        };
        let engine = match new_engine(true, space) {
            Ok(engine) => engine,
            Err(error) => {
                assert(engine_may_return(true, reservation(memory), Err(error)));
                return Err(JobError::Engine(wasm_err(&error)));
            },
        };
        let module = match compile(&engine, code) {
            Ok(module) => module,
            Err(error) => {
                assert(compile_may_return(engine, code@, Err(error)));
                return Err(JobError::Code(wasm_err(&error)));
            },
        };
        let imports = list_imports(&module);
        if imports.len() > 0 {
            return Err(JobError::WantsImports(name_imports(&imports)));
        }
        Ok(Job { engine, module, id: sha256(code), fuel, memory })
    }

    /// What the job is known by: the digest of its code.
    ///
    /// Two nodes holding the same bytes agree on which job it is without being
    /// told, and nobody keeps a registry of names.
    pub fn id(&self) -> (id: &[u8; 32])
        requires
            self.wf(),
        ensures
            id@ == sha256_of(self.code()),
    {
        &self.id
    }

    /// A store as every tick begins with one: the job's two ceilings, room for
    /// one instance with one memory, and nothing started in it yet.
    pub open spec fn allots(&self, store: wasmtime::Store<wasmtime::StoreLimits>) -> bool {
        &&& store_limits(store) == (self.memory() as nat, 1nat, 1nat)
        &&& fuel_left(store) == self.fuel()
        &&& counts_fuel(store)
        &&& is_unused(store)
    }

    /// Whether starting the job's code in such a store can give `instance` and
    /// leave `store` behind.
    pub open spec fn starts(
        &self,
        instance: Instance,
        store: wasmtime::Store<wasmtime::StoreLimits>,
    ) -> bool {
        exists|before: wasmtime::Store<wasmtime::StoreLimits>, module: wasmtime::Module| #[trigger]
            start_may_return(before, module, Ok(instance), store) && self.allots(before)
                && module_code(module) == self.code()
    }

    /// A guest as every tick starts with one: an instance of the job's code in a
    /// store of its own, with the job's two ceilings in force, just as starting
    /// it left it.
    pub open spec fn fresh(&self, guest: Guest) -> bool {
        &&& guest.wf()
        &&& instance_code(guest.instance) == self.code()
        &&& store_limits(guest.store) == (self.memory() as nat, 1nat, 1nat)
        &&& fuel_left(guest.store) <= self.fuel()
        &&& counts_fuel(guest.store)
        &&& exists|started: wasmtime::Store<wasmtime::StoreLimits>| #[trigger]
            self.starts(guest.instance, started) && unspent(started, guest.store)
    }

    /// A fresh guest that was asked for room for `handed`.
    pub open spec fn offered(&self, handed: Seq<u8>, run: Run) -> bool {
        &&& self.fresh(run.fresh)
        &&& handed.len() <= u32::MAX
        &&& alloc_may_return(
            run.fresh.store,
            run.fresh.alloc,
            handed.len() as u32,
            run.offer,
            run.offered.store,
        )
        &&& run.offered.later(run.fresh)
    }

    /// A run in which the guest found `handed` where it offered room, and
    /// nothing else was touched; it then ran once, and ended as `run` says.
    pub open spec fn ran(&self, handed: Seq<u8>, run: Run) -> bool {
        &&& self.offered(handed, run)
        &&& run.offer is Ok
        &&& run.ptr() + handed.len() <= run.offered.bytes().len()
        &&& run.before.later(run.offered)
        &&& run.before.bytes() == run.offered.bytes().take(run.ptr() as int) + handed
            + run.offered.bytes().skip(run.ptr() + handed.len())
        &&& tick_may_return(
            run.before.store,
            run.before.tick,
            run.ptr(),
            handed.len() as u32,
            run.answer,
            run.after.store,
        )
        &&& run.after.later(run.before)
    }

    /// Whether a tick from `state` with `inputs` can come to `outcome`: the
    /// guest was handed exactly these, and the outcome is what its answer says
    /// and what its fuel shows.
    #[verifier::opaque]
    pub open spec fn may_answer(&self, state: Seq<u8>, inputs: Seq<u8>, outcome: Outcome) -> bool {
        exists|run: Run| #[trigger]
            self.ran(frame(state, inputs), run) && {
                &&& run.after.bytes().len() <= self.memory()
                &&& run.answer is Ok
                &&& answer_of(run.answer->Ok_0, run.after.bytes()) == Ok::<_, JobError>(
                    (outcome.state@, outcome.effects@),
                )
                &&& outcome.fuel_used == self.fuel() - fuel_left(run.after.store)
            }
    }

    /// Whether a tick from `state` with `inputs` can come to nothing for the
    /// reason `error`.
    #[verifier::opaque]
    pub open spec fn may_fail(&self, state: Seq<u8>, inputs: Seq<u8>, error: JobError) -> bool {
        let handed = frame(state, inputs);
        match error {
            JobError::Engine(_)
            | JobError::Code(_)
            | JobError::WantsImports(_)
            | JobError::Fuel(_) => false,
            JobError::Start(why) => exists|
                before: wasmtime::Store<wasmtime::StoreLimits>,
                module: wasmtime::Module,
                stopped: wasmtime::Error,
                after: wasmtime::Store<wasmtime::StoreLimits>,
            | #[trigger]
                start_may_return(before, module, Err(stopped), after) && self.allots(before)
                    && module_code(module) == self.code() && why@ == error_text(stopped),
            JobError::NoMemory => exists|
                instance: Instance,
                started: wasmtime::Store<wasmtime::StoreLimits>,
            | #[trigger]
                self.starts(instance, started) && memory_export(instance, "memory"@) is None,
            JobError::NoAlloc(why) => exists|
                instance: Instance,
                started: wasmtime::Store<wasmtime::StoreLimits>,
                missing: wasmtime::Error,
            |
                #![trigger self.starts(instance, started), error_text(missing)]
                self.starts(instance, started) && lacks_alloc(instance, missing) && why@
                    == error_text(missing),
            JobError::NoTick(why) => exists|
                instance: Instance,
                started: wasmtime::Store<wasmtime::StoreLimits>,
                missing: wasmtime::Error,
            |
                #![trigger self.starts(instance, started), error_text(missing)]
                self.starts(instance, started) && lacks_tick(instance, missing) && why@
                    == error_text(missing),
            JobError::InputTooLarge => handed.len() > u32::MAX,
            JobError::AllocFailed(why) => exists|run: Run| #[trigger]
                self.offered(handed, run) && run.offer is Err && why@ == error_text(
                    run.offer->Err_0,
                ),
            JobError::BadBuffer(why) => exists|run: Run, stopped: wasmtime::Error|
                #![trigger self.offered(handed, run), error_text(stopped)]
                self.offered(handed, run) && run.rejects(handed, stopped) && why@ == error_text(
                    stopped,
                ),
            JobError::Exhausted { fuel } => fuel == self.fuel() && exists|run: Run| #[trigger]
                self.ran(handed, run) && run.answer is Err && fuel_left(run.after.store) == 0,
            JobError::Trapped(why) => exists|run: Run| #[trigger]
                self.ran(handed, run) && run.answer is Err && fuel_left(run.after.store) > 0
                    && why@ == error_text(run.answer->Err_0),
            JobError::AnswerOverLimit { .. }
            | JobError::AnswerOverflows
            | JobError::AnswerPastEnd
            | JobError::Answer(_) => exists|run: Run| #[trigger]
                self.ran(handed, run) && run.answer is Ok && answer_of(
                    run.answer->Ok_0,
                    run.after.bytes(),
                ) == Err::<(Seq<u8>, Seq<u8>), _>(error),
        }
    }

    /// Whether a tick from `state` with `inputs` can come to `res`.
    pub open spec fn may_end(
        &self,
        state: Seq<u8>,
        inputs: Seq<u8>,
        res: Result<Outcome, JobError>,
    ) -> bool {
        match res {
            Ok(outcome) => self.may_answer(state, inputs, outcome),
            Err(error) => self.may_fail(state, inputs, error),
        }
    }

    /// Starts a fresh instance and finds what it exports.
    fn start(&self) -> (res: Result<Guest, JobError>)
        requires
            self.wf(),
        ensures
            match res {
                Ok(guest) => self.fresh(guest),
                Err(error) => {
                    &&& error is Start || error is NoMemory || error is NoAlloc || error is NoTick
                    &&& forall|state: Seq<u8>, inputs: Seq<u8>| #[trigger]
                        self.may_fail(state, inputs, error)
                },
            },
    {
        reveal(Job::may_fail);
        let mut store = new_store(&self.engine, self.memory, 1, 1);
        match set_fuel(&mut store, self.fuel) {
            Ok(_) => {},
            Err(error) => return Err(JobError::Fuel(wasm_err(&error))),
        }
        let ghost allotted = store;
        assert(self.allots(allotted));
        let instance = match instantiate(&mut store, &self.module) {
            Ok(instance) => instance,
            Err(error) => {
                assert(start_may_return(allotted, self.module, Err(error), store));
                return Err(JobError::Start(wasm_err(&error)));
            },
        };
        let ghost started = store;
        assert(start_may_return(allotted, self.module, Ok(instance), started));
        assert(self.starts(instance, started));
        let memory = match find_memory(&instance, &mut store, "memory") {
            Some(memory) => memory,
            None => return Err(JobError::NoMemory),
        };
        let alloc = match find_alloc(&instance, &mut store, "alloc") {
            Ok(alloc) => alloc,
            Err(error) => {
                assert(lacks_alloc(instance, error));
                return Err(JobError::NoAlloc(wasm_err(&error)));
            },
        };
        let tick = match find_tick(&instance, &mut store, "tick") {
            Ok(tick) => tick,
            Err(error) => {
                assert(lacks_tick(instance, error));
                return Err(JobError::NoTick(wasm_err(&error)));
            },
        };
        Ok(Guest { store, instance, memory, alloc, tick })
    }

    /// Runs one tick.
    ///
    /// A fresh instance is built every time. Anything a job leaves in a global,
    /// or on its heap, is gone before the next tick, so "nothing survives
    /// between ticks except the state" is not a rule a job could break, it is a
    /// fact about how the job is run.
    ///
    /// What the guest answers is the guest's to choose. Whatever it is, the
    /// guest was handed exactly this state and these inputs, it ran under the
    /// job's two ceilings, and the outcome is what its answer says.
    pub fn tick(&self, state: &[u8], inputs: &[u8]) -> (res: Result<Outcome, JobError>)
        requires
            self.wf(),
        ensures
            self.may_end(state@, inputs@, res),
            frame(state@, inputs@).len() > u32::MAX ==> res is Err,
            res matches Ok(outcome) ==> {
                &&& outcome.fuel_used <= self.fuel()
                &&& outcome.state@.len() <= MAX_BLOB
                &&& outcome.effects@.len() <= MAX_BLOB
            },
    {
        reveal(Job::may_answer);
        let mut guest = match self.start() {
            Ok(guest) => guest,
            Err(error) => return Err(error),
        };
        let ghost fresh = guest;
        reveal(Job::may_fail);
        proof {
            lemma_frame_len(state@, inputs@);
        }
        if state.len() as u128 + inputs.len() as u128 + 8 > u32::MAX as u128 {
            return Err(JobError::InputTooLarge);
        }
        let handed = encode_frame(state, inputs);
        let len = handed.len() as u32;
        let ptr = match call_alloc(&mut guest, len) {
            Ok(ptr) => ptr,
            Err(error) => {
                proof {
                    let run = Run {
                        fresh,
                        offer: Err(error),
                        offered: guest,
                        before: guest,
                        answer: Err(error),
                        after: guest,
                    };
                    assert(self.offered(frame(state@, inputs@), run));
                }
                return Err(JobError::AllocFailed(wasm_err(&error)));
            },
        };
        let ghost offer = Ok::<u32, wasmtime::Error>(ptr);
        let ghost offered = guest;
        match write_memory(&mut guest, ptr as usize, &handed) {
            Ok(_) => {},
            Err(error) => {
                proof {
                    let run = Run {
                        fresh,
                        offer,
                        offered,
                        before: guest,
                        answer: Err(error),
                        after: guest,
                    };
                    assert(self.offered(frame(state@, inputs@), run));
                    assert(run.rejects(frame(state@, inputs@), error));
                }
                return Err(JobError::BadBuffer(wasm_err(&error)));
            },
        }
        let ghost before = guest;
        let packed = match call_tick(&mut guest, ptr, len) {
            Ok(packed) => packed,
            Err(error) => {
                let remaining: u64 = match get_fuel(&guest.store) {
                    Ok(fuel) => fuel,
                    Err(_) => 0,
                };
                proof {
                    let run = Run { fresh, offer, offered, before, answer: Err(error), after: guest };
                    assert(self.ran(frame(state@, inputs@), run));
                }
                return Err(judge_trap(self.fuel, remaining, wasm_err(&error)));
            },
        };
        let remaining: u64 = match get_fuel(&guest.store) {
            Ok(fuel) => fuel,
            Err(_) => 0,
        };
        let fuel_used = self.fuel - remaining;
        proof {
            let run = Run { fresh, offer, offered, before, answer: Ok(packed), after: guest };
            assert(self.ran(frame(state@, inputs@), run));
        }
        match read_answer(packed, memory_data(&guest)) {
            Ok((state, effects)) => Ok(Outcome { state, effects, fuel_used }),
            Err(error) => Err(error),
        }
    }
}

/// The address space that is set aside for a memory of at most `memory` bytes:
/// so much, but no more than addresses of thirty-two bits reach.
pub open spec fn reservation(memory: usize) -> u64 {
    if memory <= 0x1_0000_0000 {
        memory as u64
    } else {
        0x1_0000_0000
    }
}

/// What loading `code` may come to: a job of exactly this code under exactly
/// these ceilings where the code imports nothing, and the list of what it wants
/// where it does. What else stands in the way is the runtime's to say.
pub open spec fn loaded(
    code: Seq<u8>,
    fuel: u64,
    memory: usize,
    res: Result<Job, JobError>,
) -> bool {
    match res {
        Ok(job) => {
            &&& job.wf()
            &&& job.code() == code
            &&& job.fuel() == fuel
            &&& job.memory() == memory
            &&& wasm_imports(code).len() == 0
        },
        Err(JobError::WantsImports(names)) => {
            &&& wasm_imports(code).len() > 0
            &&& texts(names@) == import_names(wasm_imports(code))
        },
        Err(JobError::Engine(why)) => exists|stopped: wasmtime::Error| #[trigger]
            engine_may_return(true, reservation(memory), Err(stopped)) && why@ == error_text(stopped),
        Err(JobError::Code(why)) => exists|engine: wasmtime::Engine, stopped: wasmtime::Error|
         #[trigger]
            compile_may_return(engine, code, Err(stopped)) && meters_fuel(engine)
                && reserved_space(engine) == reservation(memory) && why@ == error_text(stopped),
        Err(_) => false,
    }
}

/// What the world hands a job at `tick`: the time, four units of steel, and
/// three workers. Steel arriving and people turning up are the world's business,
/// not the job's, so they are handed in rather than fetched.
pub open spec fn world_bytes(tick: u64) -> Seq<u8> {
    le_bytes(tick as nat, 8) + le_bytes(4, 4) + le_bytes(3, 4)
}

/// What the world hands a job at `tick`.
pub fn world_inputs(tick: u64) -> (inputs: Vec<u8>)
    ensures
        inputs@ == world_bytes(tick),
        inputs@.len() == 16,
{
    let mut inputs: Vec<u8> = Vec::new();
    put_u64_le(&mut inputs, tick);
    put_u32_le(&mut inputs, 4);
    put_u32_le(&mut inputs, 3);
    proof {
        lemma_le_bytes_len(tick as nat, 8);
        lemma_le_bytes_len(4, 4);
        lemma_le_bytes_len(3, 4);
    }
    inputs
}

/// The state that the tick after these outcomes starts from.
pub open spec fn state_after(outcomes: Seq<Outcome>) -> Seq<u8> {
    if outcomes.len() == 0 {
        Seq::empty()
    } else {
        outcomes.last().state@
    }
}

/// The fuel that these outcomes used.
pub open spec fn fuel_of(outcomes: Seq<Outcome>) -> nat
    decreases outcomes.len(),
{
    if outcomes.len() == 0 {
        0
    } else {
        fuel_of(outcomes.drop_last()) + outcomes.last().fuel_used as nat
    }
}

/// Whether these can be the outcomes of the first ticks of `job`, where it was
/// handed these inputs, and each tick started from the state that the one before
/// it left.
pub open spec fn may_run(job: Job, inputs: Seq<Seq<u8>>, outcomes: Seq<Outcome>) -> bool {
    &&& inputs.len() == outcomes.len()
    &&& forall|i: int|
        0 <= i < outcomes.len() ==> job.may_answer(
            state_after(outcomes.take(i)),
            inputs[i],
            #[trigger] outcomes[i],
        )
}

/// What the world hands a job in its first `ticks` ticks.
pub open spec fn world(ticks: nat) -> Seq<Seq<u8>> {
    Seq::new(ticks, |i: int| world_bytes(i as u64))
}

/// Whether two outcomes are the same, byte for byte.
pub open spec fn alike(a: Outcome, b: Outcome) -> bool {
    &&& a.state@ == b.state@
    &&& a.effects@ == b.effects@
    &&& a.fuel_used == b.fuel_used
}

/// What a tick came to, as it may be compared: two ticks end alike where both
/// fail, or both are answered and the outcomes are the same, byte for byte.
pub open spec fn ended_alike(a: Result<Outcome, JobError>, b: Result<Outcome, JobError>) -> bool {
    match (a, b) {
        (Ok(x), Ok(y)) => alike(x, y),
        (Err(_), Err(_)) => true,
        _ => false,
    }
}

/// Whether the code of `job` leaves the runtime nothing to choose: a tick from
/// the same state with the same inputs can only end in one way.
///
/// The bits of a NaN, how deep calls may nest, and whether there was more memory
/// to be had are the runtime's to choose, so code that looks at those need not be
/// so.
pub open spec fn predictable(job: Job) -> bool {
    forall|
        state: Seq<u8>,
        inputs: Seq<u8>,
        a: Result<Outcome, JobError>,
        b: Result<Outcome, JobError>,
    | #[trigger]
        job.may_end(state, inputs, a) && #[trigger] job.may_end(state, inputs, b) ==> ended_alike(
            a,
            b,
        )
}

/// Whether two jobs are the same code under the same ceilings, wherever and
/// whenever each was loaded.
pub open spec fn same_job(a: Job, b: Job) -> bool {
    &&& a.code() == b.code()
    &&& a.fuel() == b.fuel()
    &&& a.memory() == b.memory()
}

proof fn lemma_same_start(a: Job, b: Job, guest: Guest)
    requires
        same_job(a, b),
        a.fresh(guest),
    ensures
        b.fresh(guest),
{
    let started = choose|started: wasmtime::Store<wasmtime::StoreLimits>| #[trigger]
        a.starts(guest.instance, started) && unspent(started, guest.store);
    lemma_same_instance(a, b, guest.instance, started);
}

proof fn lemma_same_instance(
    a: Job,
    b: Job,
    instance: Instance,
    started: wasmtime::Store<wasmtime::StoreLimits>,
)
    requires
        same_job(a, b),
        a.starts(instance, started),
    ensures
        b.starts(instance, started),
{
    let (before, module) = choose|
        before: wasmtime::Store<wasmtime::StoreLimits>,
        module: wasmtime::Module,
    | #[trigger]
        start_may_return(before, module, Ok(instance), started) && a.allots(before)
            && module_code(module) == a.code();
    assert(b.allots(before));
}

proof fn lemma_same_runs(a: Job, b: Job, handed: Seq<u8>, run: Run)
    requires
        same_job(a, b),
    ensures
        a.offered(handed, run) ==> b.offered(handed, run),
        a.ran(handed, run) ==> b.ran(handed, run),
{
    if a.offered(handed, run) {
        lemma_same_start(a, b, run.fresh);
    }
}

proof fn lemma_same_answers(a: Job, b: Job, state: Seq<u8>, inputs: Seq<u8>, outcome: Outcome)
    requires
        same_job(a, b),
        a.may_answer(state, inputs, outcome),
    ensures
        b.may_answer(state, inputs, outcome),
{
    reveal(Job::may_answer);
    let handed = frame(state, inputs);
    let run = choose|run: Run| #[trigger]
        a.ran(handed, run) && {
            &&& run.after.bytes().len() <= a.memory()
            &&& run.answer is Ok
            &&& answer_of(run.answer->Ok_0, run.after.bytes()) == Ok::<_, JobError>(
                (outcome.state@, outcome.effects@),
            )
            &&& outcome.fuel_used == a.fuel() - fuel_left(run.after.store)
        };
    lemma_same_runs(a, b, handed, run);
    assert(b.ran(handed, run));
}

proof fn lemma_same_failures(a: Job, b: Job, state: Seq<u8>, inputs: Seq<u8>, error: JobError)
    requires
        same_job(a, b),
        a.may_fail(state, inputs, error),
    ensures
        b.may_fail(state, inputs, error),
{
    reveal(Job::may_fail);
    let handed = frame(state, inputs);
    assert forall|run: Run| a.offered(handed, run) implies #[trigger] b.offered(handed, run) by {
        lemma_same_runs(a, b, handed, run);
    }
    assert forall|run: Run| a.ran(handed, run) implies #[trigger] b.ran(handed, run) by {
        lemma_same_runs(a, b, handed, run);
    }
    match error {
        JobError::Start(why) => {
            let (before, module, stopped, after) = choose|
                before: wasmtime::Store<wasmtime::StoreLimits>,
                module: wasmtime::Module,
                stopped: wasmtime::Error,
                after: wasmtime::Store<wasmtime::StoreLimits>,
            | #[trigger]
                start_may_return(before, module, Err(stopped), after) && a.allots(before)
                    && module_code(module) == a.code() && why@ == error_text(stopped);
            assert(b.allots(before));
        },
        JobError::NoMemory => {
            let (instance, started) = choose|
                instance: Instance,
                started: wasmtime::Store<wasmtime::StoreLimits>,
            | #[trigger]
                a.starts(instance, started) && memory_export(instance, "memory"@) is None;
            lemma_same_instance(a, b, instance, started);
        },
        JobError::NoAlloc(why) => {
            let (instance, started, missing) = choose|
                instance: Instance,
                started: wasmtime::Store<wasmtime::StoreLimits>,
                missing: wasmtime::Error,
            |
                #![trigger a.starts(instance, started), error_text(missing)]
                a.starts(instance, started) && lacks_alloc(instance, missing) && why@
                    == error_text(missing);
            lemma_same_instance(a, b, instance, started);
        },
        JobError::NoTick(why) => {
            let (instance, started, missing) = choose|
                instance: Instance,
                started: wasmtime::Store<wasmtime::StoreLimits>,
                missing: wasmtime::Error,
            |
                #![trigger a.starts(instance, started), error_text(missing)]
                a.starts(instance, started) && lacks_tick(instance, missing) && why@
                    == error_text(missing);
            lemma_same_instance(a, b, instance, started);
        },
        JobError::AllocFailed(why) => {
            let run = choose|run: Run| #[trigger]
                a.offered(handed, run) && run.offer is Err && why@ == error_text(run.offer->Err_0);
            assert(b.offered(handed, run));
        },
        JobError::BadBuffer(why) => {
            let (run, stopped) = choose|run: Run, stopped: wasmtime::Error|
                #![trigger a.offered(handed, run), error_text(stopped)]
                a.offered(handed, run) && run.rejects(handed, stopped) && why@ == error_text(
                    stopped,
                );
            assert(b.offered(handed, run));
        },
        JobError::Exhausted { .. } => {
            let run = choose|run: Run| #[trigger]
                a.ran(handed, run) && run.answer is Err && fuel_left(run.after.store) == 0;
            assert(b.ran(handed, run));
        },
        JobError::Trapped(why) => {
            let run = choose|run: Run| #[trigger]
                a.ran(handed, run) && run.answer is Err && fuel_left(run.after.store) > 0 && why@
                    == error_text(run.answer->Err_0);
            assert(b.ran(handed, run));
        },
        JobError::AnswerOverLimit { .. }
        | JobError::AnswerOverflows
        | JobError::AnswerPastEnd
        | JobError::Answer(_) => {
            let run = choose|run: Run| #[trigger]
                a.ran(handed, run) && run.answer is Ok && answer_of(
                    run.answer->Ok_0,
                    run.after.bytes(),
                ) == Err::<(Seq<u8>, Seq<u8>), _>(error);
            assert(b.ran(handed, run));
        },
        _ => {},
    }
}

/// Nothing but the state comes from one tick to the next, and nothing at all
/// from the machine: what a tick can come to, be it an answer or a failure,
/// depends on the code, the two ceilings, the state and the inputs, and not on
/// where or when the job was loaded or what it ran before.
pub proof fn a_tick_depends_on_what_it_is_handed(
    a: Job,
    b: Job,
    state: Seq<u8>,
    inputs: Seq<u8>,
    res: Result<Outcome, JobError>,
)
    requires
        same_job(a, b),
    ensures
        a.may_end(state, inputs, res) == b.may_end(state, inputs, res),
{
    match res {
        Ok(outcome) => {
            if a.may_answer(state, inputs, outcome) {
                lemma_same_answers(a, b, state, inputs, outcome);
            }
            if b.may_answer(state, inputs, outcome) {
                lemma_same_answers(b, a, state, inputs, outcome);
            }
        },
        Err(error) => {
            if a.may_fail(state, inputs, error) {
                lemma_same_failures(a, b, state, inputs, error);
            }
            if b.may_fail(state, inputs, error) {
                lemma_same_failures(b, a, state, inputs, error);
            }
        },
    }
}

/// The same tick of the same predictable job, wherever each was loaded and
/// whatever each ran before, ends in the same way: both fail, or both are
/// answered with the same state, the same effects and the same fuel.
pub proof fn the_same_tick_ends_alike(
    a: Job,
    b: Job,
    state: Seq<u8>,
    inputs: Seq<u8>,
    x: Result<Outcome, JobError>,
    y: Result<Outcome, JobError>,
)
    requires
        same_job(a, b),
        predictable(a),
        a.may_end(state, inputs, x),
        b.may_end(state, inputs, y),
    ensures
        ended_alike(x, y),
{
    a_tick_depends_on_what_it_is_handed(a, b, state, inputs, y);
}

/// Two nodes that run the same predictable job on the same inputs agree on every
/// tick, byte for byte.
pub proof fn two_nodes_agree_on_every_tick(
    a: Job,
    b: Job,
    inputs: Seq<Seq<u8>>,
    ours: Seq<Outcome>,
    theirs: Seq<Outcome>,
    tick: int,
)
    requires
        same_job(a, b),
        predictable(a),
        may_run(a, inputs, ours),
        may_run(b, inputs, theirs),
        0 <= tick < inputs.len(),
    ensures
        alike(ours[tick], theirs[tick]),
    decreases tick,
{
    let (before, before_too) = (ours.take(tick), theirs.take(tick));
    if tick > 0 {
        two_nodes_agree_on_every_tick(a, b, inputs, ours, theirs, tick - 1);
        assert(before.last() == ours[tick - 1]);
        assert(before_too.last() == theirs[tick - 1]);
    }
    let state = state_after(before);
    assert(state == state_after(before_too));
    assert(a.may_answer(state, inputs[tick], ours[tick]));
    assert(b.may_answer(state, inputs[tick], theirs[tick]));
    the_same_tick_ends_alike(a, b, state, inputs[tick], Ok(ours[tick]), Ok(theirs[tick]));
}

/// Two nodes that ran the same predictable job on the same inputs also fail
/// together: the next tick ends alike on both.
pub proof fn two_nodes_fail_together(
    a: Job,
    b: Job,
    inputs: Seq<Seq<u8>>,
    ours: Seq<Outcome>,
    theirs: Seq<Outcome>,
    next: Seq<u8>,
    x: Result<Outcome, JobError>,
    y: Result<Outcome, JobError>,
)
    requires
        same_job(a, b),
        predictable(a),
        may_run(a, inputs, ours),
        may_run(b, inputs, theirs),
        a.may_end(state_after(ours), next, x),
        b.may_end(state_after(theirs), next, y),
    ensures
        ended_alike(x, y),
{
    if inputs.len() > 0 {
        two_nodes_agree_on_every_tick(a, b, inputs, ours, theirs, inputs.len() - 1);
    }
    the_same_tick_ends_alike(a, b, state_after(ours), next, x, y);
}

/// Carrying the state to a freshly loaded job and going on there is the same as
/// never having stopped: what the two ran, one after the other, is what one of
/// them could have run alone.
pub proof fn resuming_a_job_matches_never_having_stopped(
    a: Job,
    b: Job,
    first: Seq<Seq<u8>>,
    second: Seq<Seq<u8>>,
    done: Seq<Outcome>,
    resumed: Seq<Outcome>,
)
    requires
        same_job(a, b),
        may_run(a, first, done),
        second.len() == resumed.len(),
        forall|i: int|
            0 <= i < resumed.len() ==> b.may_answer(
                state_after(done + resumed.take(i)),
                second[i],
                #[trigger] resumed[i],
            ),
    ensures
        may_run(a, first + second, done + resumed),
{
    let (inputs, whole) = (first + second, done + resumed);
    assert forall|i: int| 0 <= i < whole.len() implies a.may_answer(
        state_after(whole.take(i)),
        inputs[i],
        #[trigger] whole[i],
    ) by {
        if i < done.len() {
            assert(whole.take(i) =~= done.take(i));
            assert(whole[i] == done[i]);
        } else {
            let j = i - done.len();
            assert(whole.take(i) =~= done + resumed.take(j));
            assert(whole[i] == resumed[j]);
            assert(inputs[i] == second[j]);
            lemma_same_answers(b, a, state_after(whole.take(i)), second[j], resumed[j]);
        }
    }
}

/// One effect of a tick, as it is shown.
pub open spec fn shown_effect(tick: nat, effect: Seq<char>) -> Seq<char> {
    "  tick "@ + padded(decimal(tick), ' ', 3) + "  "@ + effect
}

/// The effects of a tick, as they are shown: a line for each.
pub open spec fn shown_effects(tick: nat, effects: Seq<u8>) -> Seq<Seq<char>> {
    let found = lines(lossy_text(effects));
    Seq::new(found.len(), |i: int| shown_effect(tick, found[i]))
}

/// The effects of these outcomes, as they are shown.
pub open spec fn shown(outcomes: Seq<Outcome>) -> Seq<Seq<char>>
    decreases outcomes.len(),
{
    if outcomes.len() == 0 {
        Seq::empty()
    } else {
        shown(outcomes.drop_last()) + shown_effects(
            (outcomes.len() - 1) as nat,
            outcomes.last().effects@,
        )
    }
}

/// The closing line of a trial in which every tick succeeded.
pub open spec fn trial_summary(ticks: nat, outcomes: Seq<Outcome>) -> Seq<char> {
    let each = fuel_of(outcomes) / if ticks == 0 {
        1
    } else {
        ticks
    };
    "\n"@ + decimal(ticks) + " ticks, "@ + decimal(state_after(outcomes).len())
        + " bytes of state, "@ + decimal(fuel_of(outcomes)) + " fuel ("@ + decimal(each)
        + " per tick)"@
}

/// What running a job for some ticks showed, and why it stopped early if it
/// did.
pub struct Trial {
    pub lines: Vec<String>,
    pub failed: Option<JobError>,
}

impl Trial {
    /// Whether running `job` for `ticks` ticks can show this, with `outcomes`
    /// of the ticks that succeeded.
    pub open spec fn reports(&self, job: Job, ticks: nat, outcomes: Seq<Outcome>) -> bool {
        &&& may_run(job, world(outcomes.len()), outcomes)
        &&& match self.failed {
            None => {
                &&& outcomes.len() == ticks
                &&& texts(self.lines@) == shown(outcomes).push(trial_summary(ticks, outcomes))
            },
            Some(error) => {
                &&& outcomes.len() < ticks
                &&& texts(self.lines@) == shown(outcomes)
                &&& job.may_fail(
                    state_after(outcomes),
                    world_bytes(outcomes.len() as u64),
                    error,
                )
            },
        }
    }
}

/// Shows the effects of one tick.
fn show_effects(shown: &mut Vec<String>, tick: u64, effects: &[u8])
    ensures
        texts(final(shown)@) == texts(old(shown)@) + shown_effects(tick as nat, effects@),
{
    let found = lines_of(&read_lossy(effects));
    let ghost before = texts(shown@);
    let mut at: usize = 0;
    assert(texts(shown@) =~= before + shown_effects(tick as nat, effects@).take(0));
    while at < found.len()
        invariant
            at <= found@.len(),
            texts(found@) == lines(lossy_text(effects@)),
            texts(shown@) == before + shown_effects(tick as nat, effects@).take(at as int),
        decreases found@.len() - at,
    {
        let ghost so_far = shown@;
        let mut line = "  tick ".to_owned();
        line.push_str(&pad_text(&decimal_text(tick as u128), ' ', 3));
        line.push_str("  ");
        line.push_str(&found[at]);
        shown.push(line);
        proof {
            let all = shown_effects(tick as nat, effects@);
            assert(texts(found@)[at as int] == found@[at as int]@);
            assert(all.take(at + 1) =~= all.take(at as int).push(all[at as int]));
            assert(texts(shown@) =~= texts(so_far).push(line@));
        }
        at += 1;
    }
    assert(shown_effects(tick as nat, effects@).take(at as int) =~= shown_effects(
        tick as nat,
        effects@,
    ));
}

/// Runs a job for some ticks and shows what it did.
///
/// Every tick feeds the previous state back in, which is the whole contract:
/// the job keeps nothing of its own between calls.
pub fn run_job(job: &Job, ticks: u64) -> (trial: Trial)
    requires
        job.wf(),
    ensures
        exists|outcomes: Seq<Outcome>| trial.reports(*job, ticks as nat, outcomes),
{
    let mut state: Vec<u8> = Vec::new();
    let mut total_fuel: u128 = 0;
    let mut shown_lines: Vec<String> = Vec::new();
    let ghost mut outcomes: Seq<Outcome> = Seq::empty();
    assert(texts(shown_lines@) =~= shown(outcomes));
    let mut tick: u64 = 0;
    while tick < ticks
        invariant
            job.wf(),
            tick <= ticks,
            outcomes.len() == tick,
            state@ == state_after(outcomes),
            state@.len() <= MAX_BLOB,
            total_fuel == fuel_of(outcomes),
            total_fuel <= tick * job.fuel(),
            texts(shown_lines@) == shown(outcomes),
            may_run(*job, world(outcomes.len()), outcomes),
        decreases ticks - tick,
    {
        let inputs = world_inputs(tick);
        let outcome = match job.tick(&state, &inputs) {
            Ok(outcome) => outcome,
            Err(error) => {
                let trial = Trial { lines: shown_lines, failed: Some(error) };
                assert(trial.reports(*job, ticks as nat, outcomes));
                return trial;
            },
        };
        let ghost fuel = job.fuel();
        assert(tick * fuel + fuel == (tick + 1) * fuel && (tick + 1) * fuel <= u128::MAX)
            by (nonlinear_arith)
            requires
                tick < u64::MAX,
                fuel <= u64::MAX,
        ;
        total_fuel = total_fuel + outcome.fuel_used as u128;
        show_effects(&mut shown_lines, tick, &outcome.effects);
        proof {
            let longer = outcomes.push(outcome);
            assert(longer.drop_last() =~= outcomes);
            assert forall|i: int| 0 <= i < longer.len() implies job.may_answer(
                state_after(longer.take(i)),
                world(longer.len())[i],
                #[trigger] longer[i],
            ) by {
                if i < tick {
                    assert(longer.take(i) =~= outcomes.take(i));
                    assert(longer[i] == outcomes[i]);
                    assert(world(outcomes.len())[i] == world_bytes(i as u64));
                } else {
                    assert(longer.take(i) =~= outcomes);
                }
            }
            outcomes = longer;
        }
        state = outcome.state;
        tick += 1;
    }
    let least: u64 = if ticks == 0 {
        1
    } else {
        ticks
    };
    let mut line = "\n".to_owned();
    push_decimal(&mut line, ticks as u128);
    line.push_str(" ticks, ");
    push_decimal(&mut line, state.len() as u128);
    line.push_str(" bytes of state, ");
    push_decimal(&mut line, total_fuel);
    line.push_str(" fuel (");
    push_decimal(&mut line, total_fuel / least as u128);
    line.push_str(" per tick)");
    let ghost before = shown_lines@;
    shown_lines.push(line);
    assert(texts(shown_lines@) =~= texts(before).push(line@));
    let trial = Trial { lines: shown_lines, failed: None };
    assert(trial.reports(*job, ticks as nat, outcomes));
    trial
}

/// An answer is found where it says it lies: wherever in the memory, and whatever
/// stands around it, state and effects are read as they were written.
pub proof fn an_answer_is_found_where_it_lies(
    before: Seq<u8>,
    state: Seq<u8>,
    effects: Seq<u8>,
    behind: Seq<u8>,
    packed: u64,
)
    requires
        before.len() <= u32::MAX,
        8 + state.len() + effects.len() <= 16_777_216,
        packed == before.len() * 0x1_0000_0000 + (8 + state.len() + effects.len()),
        before.len() + 8 + state.len() + effects.len() + behind.len() <= usize::MAX,
    ensures
        answer_of(packed, before + frame(state, effects) + behind) == Ok::<_, JobError>(
            (state, effects),
        ),
{
    let memory = before + frame(state, effects) + behind;
    let len = 8 + state.len() + effects.len();
    lemma_frame_len(state, effects);
    assert(packed as nat / 0x1_0000_0000 == before.len());
    assert(packed as nat % 0x1_0000_0000 == len);
    assert(memory.subrange(before.len() as int, (before.len() + len) as int) =~= frame(
        state,
        effects,
    ));
    crate::frame::frames_round_trip(state, effects);
}

/// No answer is read from outside the memory, and none over the limit: what is
/// read as one begins where it says it lies, with exactly the frame of what was
/// read.
pub proof fn no_answer_is_made_up(packed: u64, memory: Seq<u8>)
    ensures
        ({
            let (ptr, len) = (packed as int / 0x1_0000_0000, packed as int % 0x1_0000_0000);
            &&& ptr + len > memory.len() || len > 16_777_216 ==> answer_of(packed, memory) is Err
            &&& answer_of(packed, memory) matches Ok((state, effects)) ==> {
                &&& 8 + state.len() + effects.len() <= len
                &&& ptr + len <= memory.len()
                &&& frame(state, effects) == memory.subrange(
                    ptr,
                    ptr + 8 + state.len() + effects.len(),
                )
            }
        }),
{
    let (ptr, len) = (packed as int / 0x1_0000_0000, packed as int % 0x1_0000_0000);
    if let Ok((state, effects)) = answer_of(packed, memory) {
        let buf = memory.subrange(ptr, ptr + len);
        crate::frame::what_is_read_was_written(buf);
        crate::frame::blocks_are_bounded(buf);
        lemma_frame_len(state, effects);
        let whole = frame(state, effects);
        assert(memory.subrange(ptr, ptr + whole.len()) =~= buf.subrange(0, whole.len() as int));
    }
}

/// A job that ended without an answer ran away exactly where no fuel is left, and
/// has a bug, in the runtime's words, otherwise.
pub proof fn a_runaway_has_no_fuel_left(fuel: u64, remaining: u64, why: Seq<char>, error: JobError)
    ensures
        trap_verdict(fuel, remaining, why, error) ==> {
            &&& error is Exhausted <==> remaining == 0
            &&& error matches JobError::Exhausted { fuel: spent } ==> spent == fuel
            &&& error matches JobError::Trapped(text) ==> text@ == why
            &&& error is Exhausted || error is Trapped
        },
{
}

/// The world hands a job the time, four units of steel and three workers, and
/// that is how a job reads it.
pub proof fn the_world_is_read_as_it_is(tick: u64)
    ensures
        world_bytes(tick).len() == 16,
        crate::factory::number_at(world_bytes(tick), 0, 8) == tick,
        crate::factory::input_at(world_bytes(tick), 8) == 4,
        crate::factory::input_at(world_bytes(tick), 12) == 3,
{
    crate::bytes::lemma_byte_rooms();
    lemma_le_bytes_len(tick as nat, 8);
    lemma_le_bytes_len(4, 4);
    lemma_le_bytes_len(3, 4);
    crate::bytes::lemma_le_round_trip(tick as nat, 8);
    crate::bytes::lemma_le_round_trip(4, 4);
    crate::bytes::lemma_le_round_trip(3, 4);
    let all = world_bytes(tick);
    assert(all.subrange(0, 8) =~= le_bytes(tick as nat, 8));
    assert(all.subrange(8, 12) =~= le_bytes(4, 4));
    assert(all.subrange(12, 16) =~= le_bytes(3, 4));
}

/// A trial shows every effect of every tick, with the number of the tick, and
/// adds up the fuel of all of them.
pub proof fn a_trial_shows_every_effect(outcomes: Seq<Outcome>, i: int, j: int)
    requires
        0 <= i < outcomes.len(),
        0 <= j < lines(lossy_text(outcomes[i].effects@)).len(),
    ensures
        shown(outcomes).contains(
            "  tick "@ + padded(decimal(i as nat), ' ', 3) + "  "@ + lines(
                lossy_text(outcomes[i].effects@),
            )[j],
        ),
        fuel_of(outcomes) == fuel_of(outcomes.drop_last()) + outcomes.last().fuel_used,
    decreases outcomes.len(),
{
    let rest = outcomes.drop_last();
    let line = "  tick "@ + padded(decimal(i as nat), ' ', 3) + "  "@ + lines(
        lossy_text(outcomes[i].effects@),
    )[j];
    let last = shown_effects((outcomes.len() - 1) as nat, outcomes.last().effects@);
    if i < rest.len() {
        a_trial_shows_every_effect(rest, i, j);
        let k = shown(rest).index_of(line);
        assert(shown(outcomes)[k] == line);
    } else {
        assert(last[j] == line);
        assert(shown(outcomes)[shown(rest).len() + j] == line);
    }
}

/// What a tick came to is what one run of the guest shows. The guest ran under the
/// job's two ceilings, alone in its store; where it offered room it found a frame,
/// and read as one that is the state and the inputs, in this order; and the
/// outcome is what stands in its memory where its answer points, and the fuel that
/// is gone.
pub proof fn a_tick_hands_over_state_and_inputs(
    job: Job,
    state: Seq<u8>,
    inputs: Seq<u8>,
    outcome: Outcome,
)
    requires
        job.may_answer(state, inputs, outcome),
        state.len() <= 16_777_216,
        inputs.len() <= 16_777_216,
    ensures
        exists|run: Run| #[trigger] is_honest(job, state, inputs, outcome, run),
{
    reveal(Job::may_answer);
    let handed = frame(state, inputs);
    let run = choose|run: Run| #[trigger]
        job.ran(handed, run) && {
            &&& run.after.bytes().len() <= job.memory()
            &&& run.answer is Ok
            &&& answer_of(run.answer->Ok_0, run.after.bytes()) == Ok::<_, JobError>(
                (outcome.state@, outcome.effects@),
            )
            &&& outcome.fuel_used == job.fuel() - fuel_left(run.after.store)
        };
    lemma_frame_len(state, inputs);
    crate::frame::frames_round_trip(state, inputs);
    let ptr = run.ptr() as int;
    assert(run.before.bytes().subrange(ptr, ptr + handed.len()) =~= handed);
    assert(is_honest(job, state, inputs, outcome, run));
}

/// Whether a run of the guest shows that a tick from this state with these inputs
/// came to this.
pub open spec fn is_honest(
    job: Job,
    state: Seq<u8>,
    inputs: Seq<u8>,
    outcome: Outcome,
    run: Run,
) -> bool {
    let (ptr, len) = (run.ptr() as int, 8 + state.len() + inputs.len());
    let packed = run.answer->Ok_0;
    &&& instance_code(run.fresh.instance) == job.code()
    &&& store_limits(run.fresh.store) == (job.memory() as nat, 1nat, 1nat)
    &&& counts_fuel(run.fresh.store)
    &&& fuel_left(run.fresh.store) <= job.fuel()
    &&& run.offer is Ok
    &&& alloc_may_return(
        run.fresh.store,
        run.fresh.alloc,
        len as u32,
        run.offer,
        run.offered.store,
    )
    &&& ptr + len <= run.before.bytes().len()
    &&& frame_of(run.before.bytes().subrange(ptr, (ptr + len) as int)) == Ok::<_, FrameError>(
        (state, inputs),
    )
    &&& run.before.bytes().len() == run.offered.bytes().len()
    &&& forall|i: int|
        0 <= i < ptr || ptr + len <= i < run.before.bytes().len() ==> #[trigger] run.before.bytes()[i]
            == run.offered.bytes()[i]
    &&& run.answer is Ok
    &&& tick_may_return(
        run.before.store,
        run.before.tick,
        run.ptr(),
        len as u32,
        run.answer,
        run.after.store,
    )
    &&& answer_of(packed, run.after.bytes()) == Ok::<_, JobError>(
        (outcome.state@, outcome.effects@),
    )
    &&& outcome.fuel_used + fuel_left(run.after.store) == job.fuel()
}

/// A job is loaded only from code that asks for nothing, and is then that code
/// under the ceilings that were given. Code that asks for something is never
/// loaded, and where that is the reason, everything that it asks for is named.
pub proof fn only_code_that_asks_for_nothing_is_loaded(
    code: Seq<u8>,
    fuel: u64,
    memory: usize,
    res: Result<Job, JobError>,
    i: int,
)
    requires
        loaded(code, fuel, memory, res),
    ensures
        wasm_imports(code).len() > 0 ==> res is Err,
        res matches Ok(job) ==> job.code() == code && job.fuel() == fuel && job.memory() == memory
            && wasm_imports(code).len() == 0,
        res matches Err(JobError::WantsImports(names)) ==> {
            &&& names@.len() == wasm_imports(code).len()
            &&& 0 <= i < names@.len() ==> names@[i]@ == wasm_imports(code)[i].0 + "::"@
                + wasm_imports(code)[i].1
        },
        res matches Err(error) ==> error is WantsImports || error is Engine || error is Code,
{
    if let Err(JobError::WantsImports(names)) = res {
        assert(texts(names@).len() == names@.len());
        if 0 <= i < names@.len() {
            assert(texts(names@)[i] == names@[i]@);
        }
    }
}

/// A trial closes with how many ticks there were, how large the state is then, and
/// what fuel they used, in all and on average.
pub proof fn a_trial_is_summed_up(ticks: nat, outcomes: Seq<Outcome>)
    requires
        ticks > 0,
    ensures
        trial_summary(ticks, outcomes) == "\n"@ + decimal(ticks) + " ticks, "@ + decimal(
            state_after(outcomes).len(),
        ) + " bytes of state, "@ + decimal(fuel_of(outcomes)) + " fuel ("@ + decimal(
            fuel_of(outcomes) / ticks,
        ) + " per tick)"@,
        outcomes.len() > 0 ==> state_after(outcomes) == outcomes.last().state@,
{
}

/// Unless told otherwise a tick may spend fifty million units of fuel, and a job
/// may hold sixty-four mebibytes.
pub proof fn the_ceilings_of_a_job()
    ensures
        DEFAULT_FUEL == 50_000_000,
        DEFAULT_MEMORY == 64 * 1024 * 1024,
        MAX_BLOB == 16 * 1024 * 1024,
{
}

} // verus!
