//! The sandbox: what the WebAssembly runtime is asked to do, and what is
//! believed of it.
//!
//! Nothing here decides anything. Each function makes one call into wasmtime
//! and states what that call does to the sandbox; what the calls mean for a
//! job is proved in `job`.
use vstd::prelude::*;
use wasmtime::{
    Config, Engine, Instance, Memory, Module, Store, StoreLimits, StoreLimitsBuilder, TypedFunc,
};

verus! {

/// A compiler and runtime with one configuration.
#[verifier::external_type_specification]
#[verifier::external_body]
pub struct ExEngine(wasmtime::Engine);

/// Compiled code.
#[verifier::external_type_specification]
#[verifier::external_body]
pub struct ExModule(wasmtime::Module);

/// Everything that one run of a module can touch.
#[verifier::external_type_specification]
#[verifier::external_body]
#[verifier::reject_recursive_types(T)]
pub struct ExStore<T: 'static>(wasmtime::Store<T>);

/// The limits that a store asks before anything in it grows.
#[verifier::external_type_specification]
#[verifier::external_body]
pub struct ExStoreLimits(wasmtime::StoreLimits);

/// A module that has been given a place to run.
#[verifier::external_type_specification]
#[verifier::external_body]
pub struct ExInstance(wasmtime::Instance);

/// A handle on the linear memory of an instance.
#[verifier::external_type_specification]
#[verifier::external_body]
pub struct ExMemory(wasmtime::Memory);

/// A handle on an exported function of known type.
#[verifier::external_type_specification]
#[verifier::external_body]
#[verifier::reject_recursive_types(Params)]
#[verifier::reject_recursive_types(Results)]
pub struct ExTypedFunc<Params, Results>(wasmtime::TypedFunc<Params, Results>);

/// Why the runtime refused or stopped.
#[verifier::external_type_specification]
#[verifier::external_body]
pub struct ExError(wasmtime::Error);

/// The words that `error` prints, its causes included.
pub uninterp spec fn error_text(error: wasmtime::Error) -> Seq<char>;

/// Whether code run by `engine` spends fuel.
pub uninterp spec fn meters_fuel(engine: Engine) -> bool;

/// The address space that `engine` sets aside for each linear memory, in bytes.
pub uninterp spec fn reserved_space(engine: Engine) -> u64;

/// The code that `module` was compiled from.
pub uninterp spec fn module_code(module: Module) -> Seq<u8>;

/// What the code asks its host for: the module and the name of each import, in
/// the code's own order.
pub uninterp spec fn wasm_imports(code: Seq<u8>) -> Seq<(Seq<char>, Seq<char>)>;

/// The bytes that one linear memory in `store` may grow to, and the number of
/// instances and of memories that `store` may hold.
pub uninterp spec fn store_limits(store: Store<StoreLimits>) -> (nat, nat, nat);

/// Whether nothing was ever started in `store`.
pub uninterp spec fn is_unused(store: Store<StoreLimits>) -> bool;

/// Whether what runs in `store` spends fuel.
pub uninterp spec fn counts_fuel(store: Store<StoreLimits>) -> bool;

/// The fuel that is left in `store`.
pub uninterp spec fn fuel_left(store: Store<StoreLimits>) -> u64;

/// Whether `instance` lives in `store`.
pub uninterp spec fn lives_in(instance: Instance, store: Store<StoreLimits>) -> bool;

/// The code that `instance` is an instance of.
pub uninterp spec fn instance_code(instance: Instance) -> Seq<u8>;

/// The linear memory that `instance` exports under `name`.
pub uninterp spec fn memory_export(instance: Instance, name: Seq<char>) -> Option<Memory>;

/// The function from one number to one that `instance` exports under `name`.
pub uninterp spec fn alloc_export(instance: Instance, name: Seq<char>) -> Option<
    TypedFunc<u32, u32>,
>;

/// The function from two numbers to one that `instance` exports under `name`.
pub uninterp spec fn tick_export(instance: Instance, name: Seq<char>) -> Option<
    TypedFunc<(u32, u32), u64>,
>;

/// What stands in `memory`, as `store` has it.
pub uninterp spec fn memory_bytes(store: Store<StoreLimits>, memory: Memory) -> Seq<u8>;

/// Whether setting a runtime up, fuel metered or not and with this much address
/// space for a memory, can end in `res`.
pub uninterp spec fn engine_may_return(
    consume_fuel: bool,
    reservation: u64,
    res: Result<Engine, wasmtime::Error>,
) -> bool;

/// Whether compiling `code` for `engine` can end in `res`.
pub uninterp spec fn compile_may_return(
    engine: Engine,
    code: Seq<u8>,
    res: Result<Module, wasmtime::Error>,
) -> bool;

/// Whether starting `module` in `before` can end in `res` and leave `after`
/// behind.
pub uninterp spec fn start_may_return(
    before: Store<StoreLimits>,
    module: Module,
    res: Result<Instance, wasmtime::Error>,
    after: Store<StoreLimits>,
) -> bool;

/// Whether looking for a function from one number to one that `instance` exports
/// under `name` can end in `res`.
pub uninterp spec fn alloc_lookup_may_return(
    instance: Instance,
    name: Seq<char>,
    res: Result<TypedFunc<u32, u32>, wasmtime::Error>,
) -> bool;

/// Whether looking for a function from two numbers to one that `instance`
/// exports under `name` can end in `res`.
pub uninterp spec fn tick_lookup_may_return(
    instance: Instance,
    name: Seq<char>,
    res: Result<TypedFunc<(u32, u32), u64>, wasmtime::Error>,
) -> bool;

/// Whether writing `bytes` at `at` into `memory`, as `before` has it, can end in
/// `res` and leave `after` behind.
pub uninterp spec fn write_may_return(
    before: Store<StoreLimits>,
    memory: Memory,
    at: usize,
    bytes: Seq<u8>,
    res: Result<(), wasmtime::Error>,
    after: Store<StoreLimits>,
) -> bool;

/// Whether calling `alloc` with `len` in `before` can end in `res` and leave
/// `after` behind. The guest decides; this names what it is free to decide.
pub uninterp spec fn alloc_may_return(
    before: Store<StoreLimits>,
    alloc: TypedFunc<u32, u32>,
    len: u32,
    res: Result<u32, wasmtime::Error>,
    after: Store<StoreLimits>,
) -> bool;

/// Whether calling `tick` with `ptr` and `len` in `before` can end in `res` and
/// leave `after` behind.
pub uninterp spec fn tick_may_return(
    before: Store<StoreLimits>,
    tick: TypedFunc<(u32, u32), u64>,
    ptr: u32,
    len: u32,
    res: Result<u64, wasmtime::Error>,
    after: Store<StoreLimits>,
) -> bool;

/// `Display` of `wasmtime::Error` in its long form: flattens an error of the
/// runtime to text. Claimed: the text is that of this error.
#[verifier::external_body]
pub fn wasm_err(error: &wasmtime::Error) -> (text: String)
    ensures
        text@ == error_text(*error),
{
    format!("{error:#}")
}

/// `Engine::new` on a default configuration in which `Config::consume_fuel` and
/// `Config::memory_reservation` were set. Claimed: what it makes meters fuel as
/// it was told to, and sets this much address space aside for a memory. A memory
/// that never outgrows that space behaves as with any other; how much space a
/// start takes, and how fast memory is reached, differ. Whether it can make one
/// on this machine is left open. No more may be set aside than a memory with
/// addresses of thirty-two bits can fill.
#[verifier::external_body]
pub(crate) fn new_engine(consume_fuel: bool, reservation: u64) -> (res: Result<
    Engine,
    wasmtime::Error,
>)
    requires
        reservation <= 0x1_0000_0000,
    ensures
        engine_may_return(consume_fuel, reservation, res),
        res matches Ok(engine) ==> {
            &&& meters_fuel(engine) == consume_fuel
            &&& reserved_space(engine) == reservation
        },
{
    let mut config = Config::new();
    config.consume_fuel(consume_fuel);
    config.memory_reservation(reservation);
    Engine::new(&config)
}

/// `Module::new`. Claimed: a module that comes out is that of this code. Which
/// code compiles is left open. Where an engine sets nearly all of the address
/// space aside, the bounds that it computes would not fit their counters.
#[verifier::external_body]
pub(crate) fn compile(engine: &Engine, code: &[u8]) -> (res: Result<Module, wasmtime::Error>)
    requires
        reserved_space(*engine) <= 0x1_0000_0000,
    ensures
        compile_may_return(*engine, code@, res),
        res matches Ok(module) ==> module_code(module) == code@,
{
    Module::new(engine, code)
}

/// The module and the name of each import, as text.
pub open spec fn import_texts(imports: Seq<(String, String)>) -> Seq<(Seq<char>, Seq<char>)> {
    Seq::new(imports.len(), |i: int| (imports[i].0@, imports[i].1@))
}

/// `Module::imports`. Claimed: the list is that of the module's code, in order
/// and with nothing left out.
#[verifier::external_body]
pub(crate) fn list_imports(module: &Module) -> (imports: Vec<(String, String)>)
    ensures
        import_texts(imports@) == wasm_imports(module_code(*module)),
{
    module.imports().map(|i| (i.module().to_string(), i.name().to_string())).collect()
}

/// `Store::new` on limits from `StoreLimitsBuilder`, which `Store::limiter` then
/// puts in force. Claimed: the store has these limits and meters fuel as the
/// engine does, and nothing was started in it.
#[verifier::external_body]
pub(crate) fn new_store(engine: &Engine, memory: usize, instances: usize, memories: usize) -> (store:
    Store<StoreLimits>)
    ensures
        store_limits(store) == (memory as nat, instances as nat, memories as nat),
        counts_fuel(store) == meters_fuel(*engine),
        is_unused(store),
{
    let limits = StoreLimitsBuilder::new()
        .memory_size(memory)
        .instances(instances)
        .memories(memories)
        .build();
    let mut store = Store::new(engine, limits);
    store.limiter(|limits| limits);
    store
}

/// `Store::set_fuel`. Claimed: it succeeds exactly where fuel is metered, and
/// then this much is left. It starts nothing.
#[verifier::external_body]
pub(crate) fn set_fuel(store: &mut Store<StoreLimits>, fuel: u64) -> (res: Result<
    (),
    wasmtime::Error,
>)
    ensures
        res is Ok <==> counts_fuel(*old(store)),
        res is Ok ==> fuel_left(*final(store)) == fuel,
        store_limits(*final(store)) == store_limits(*old(store)),
        counts_fuel(*final(store)) == counts_fuel(*old(store)),
        is_unused(*final(store)) == is_unused(*old(store)),
{
    store.set_fuel(fuel)
}

/// `Store::get_fuel`. Claimed: it succeeds exactly where fuel is metered, and
/// then tells what is left.
#[verifier::external_body]
pub(crate) fn get_fuel(store: &Store<StoreLimits>) -> (res: Result<u64, wasmtime::Error>)
    ensures
        res is Ok <==> counts_fuel(*store),
        res matches Ok(fuel) ==> fuel == fuel_left(*store),
{
    store.get_fuel()
}

/// `Instance::new` with nothing to import. Claimed: an instance that comes out
/// lives in this store and is one of this module, and starting it spends fuel
/// or none. Whether the module can be started is left open. Where no fuel is
/// metered, a start function that loops would never return.
#[verifier::external_body]
pub(crate) fn instantiate(store: &mut Store<StoreLimits>, module: &Module) -> (res: Result<
    Instance,
    wasmtime::Error,
>)
    requires
        counts_fuel(*old(store)),
    ensures
        start_may_return(*old(store), *module, res, *final(store)),
        res matches Ok(instance) ==> {
            &&& lives_in(instance, *final(store))
            &&& instance_code(instance) == module_code(*module)
        },
        fuel_left(*final(store)) <= fuel_left(*old(store)),
        store_limits(*final(store)) == store_limits(*old(store)),
        counts_fuel(*final(store)) == counts_fuel(*old(store)),
{
    Instance::new(store, module, &[])
}

/// What looking an export up leaves as it was.
pub open spec fn unspent(before: Store<StoreLimits>, after: Store<StoreLimits>) -> bool {
    &&& fuel_left(after) == fuel_left(before)
    &&& store_limits(after) == store_limits(before)
    &&& counts_fuel(after) == counts_fuel(before)
    &&& forall|memory: Memory| #[trigger]
        memory_bytes(after, memory) == memory_bytes(before, memory)
}

/// `Instance::get_memory`. Claimed: it finds the memory exported under this
/// name, if there is one, spends nothing, and leaves what memories hold as it
/// was. It would panic on an instance of another store.
#[verifier::external_body]
pub(crate) fn find_memory(
    instance: &Instance,
    store: &mut Store<StoreLimits>,
    name: &str,
) -> (res: Option<Memory>)
    requires
        lives_in(*instance, *old(store)),
    ensures
        res == memory_export(*instance, name@),
        lives_in(*instance, *final(store)),
        unspent(*old(store), *final(store)),
{
    instance.get_memory(store, name)
}

/// `Instance::get_typed_func` for a function from one number to one. Claimed: it
/// finds the function of that type exported under this name, if there is one,
/// spends nothing, and leaves what memories hold as it was. What it says where
/// there is none goes by the instance and the name. It would panic on an instance
/// of another store.
#[verifier::external_body]
pub(crate) fn find_alloc(
    instance: &Instance,
    store: &mut Store<StoreLimits>,
    name: &str,
) -> (res: Result<TypedFunc<u32, u32>, wasmtime::Error>)
    requires
        lives_in(*instance, *old(store)),
    ensures
        alloc_lookup_may_return(*instance, name@, res),
        match res {
            Ok(alloc) => alloc_export(*instance, name@) == Some(alloc),
            Err(_) => alloc_export(*instance, name@) is None,
        },
        lives_in(*instance, *final(store)),
        unspent(*old(store), *final(store)),
{
    instance.get_typed_func::<u32, u32>(store, name)
}

/// `Instance::get_typed_func` for a function from two numbers to one. Claimed: it
/// finds the function of that type exported under this name, if there is one,
/// spends nothing, and leaves what memories hold as it was. What it says where
/// there is none goes by the instance and the name. It would panic on an instance
/// of another store.
#[verifier::external_body]
pub(crate) fn find_tick(
    instance: &Instance,
    store: &mut Store<StoreLimits>,
    name: &str,
) -> (res: Result<TypedFunc<(u32, u32), u64>, wasmtime::Error>)
    requires
        lives_in(*instance, *old(store)),
    ensures
        tick_lookup_may_return(*instance, name@, res),
        match res {
            Ok(tick) => tick_export(*instance, name@) == Some(tick),
            Err(_) => tick_export(*instance, name@) is None,
        },
        lives_in(*instance, *final(store)),
        unspent(*old(store), *final(store)),
{
    instance.get_typed_func::<(u32, u32), u64>(store, name)
}

/// An instance with the three things that every job exports.
pub struct Guest {
    pub store: Store<StoreLimits>,
    pub instance: Instance,
    pub memory: Memory,
    pub alloc: TypedFunc<u32, u32>,
    pub tick: TypedFunc<(u32, u32), u64>,
}

impl Guest {
    /// The handles are those of the instance, and the instance lives here.
    pub open spec fn wf(self) -> bool {
        &&& lives_in(self.instance, self.store)
        &&& memory_export(self.instance, "memory"@) == Some(self.memory)
        &&& alloc_export(self.instance, "alloc"@) == Some(self.alloc)
        &&& tick_export(self.instance, "tick"@) == Some(self.tick)
    }

    /// What the guest's memory holds.
    pub open spec fn bytes(self) -> Seq<u8> {
        memory_bytes(self.store, self.memory)
    }

    /// The same instance, later: nothing of it but its store has changed, and
    /// the store has no more fuel than it had.
    pub open spec fn later(self, before: Guest) -> bool {
        &&& self.wf()
        &&& self.instance == before.instance
        &&& self.memory == before.memory
        &&& self.alloc == before.alloc
        &&& self.tick == before.tick
        &&& fuel_left(self.store) <= fuel_left(before.store)
        &&& store_limits(self.store) == store_limits(before.store)
        &&& counts_fuel(self.store) == counts_fuel(before.store)
    }
}

/// `TypedFunc::call` on the guest's `alloc`. Claimed: what comes back is
/// something this function can return, and fuel is spent or none. What it
/// returns is the guest's to choose. It would panic on another store's function,
/// and where no fuel is metered a guest that loops would never return.
#[verifier::external_body]
pub(crate) fn call_alloc(guest: &mut Guest, len: u32) -> (res: Result<u32, wasmtime::Error>)
    requires
        old(guest).wf(),
        counts_fuel(old(guest).store),
    ensures
        final(guest).later(*old(guest)),
        alloc_may_return(old(guest).store, old(guest).alloc, len, res, final(guest).store),
{
    guest.alloc.call(&mut guest.store, len)
}

/// `TypedFunc::call` on the guest's `tick`. Claimed: what comes back is
/// something this function can return, and fuel is spent or none. What it
/// returns is the guest's to choose. It would panic on another store's function,
/// and where no fuel is metered a guest that loops would never return.
#[verifier::external_body]
pub(crate) fn call_tick(guest: &mut Guest, ptr: u32, len: u32) -> (res: Result<
    u64,
    wasmtime::Error,
>)
    requires
        old(guest).wf(),
        counts_fuel(old(guest).store),
    ensures
        final(guest).later(*old(guest)),
        tick_may_return(old(guest).store, old(guest).tick, ptr, len, res, final(guest).store),
{
    guest.tick.call(&mut guest.store, (ptr, len))
}

/// `Memory::write`. Claimed: it succeeds exactly where the bytes fit, then they
/// stand at `at` and everything else stays, and nothing is spent. What comes back
/// is something this write can return. It would panic on another store's memory.
#[verifier::external_body]
pub(crate) fn write_memory(guest: &mut Guest, at: usize, bytes: &[u8]) -> (res: Result<
    (),
    wasmtime::Error,
>)
    requires
        old(guest).wf(),
    ensures
        final(guest).later(*old(guest)),
        write_may_return(
            old(guest).store,
            old(guest).memory,
            at,
            bytes@,
            res,
            final(guest).store,
        ),
        fuel_left(final(guest).store) == fuel_left(old(guest).store),
        res is Ok <==> at + bytes@.len() <= old(guest).bytes().len(),
        res is Ok ==> final(guest).bytes() == old(guest).bytes().take(at as int) + bytes@ + old(
            guest,
        ).bytes().skip(at + bytes@.len()),
        res is Err ==> final(guest).bytes() == old(guest).bytes(),
{
    guest.memory.write(&mut guest.store, at, bytes).map_err(wasmtime::Error::from)
}

/// `Memory::data`. Claimed: the slice is what the memory holds, and the memory
/// never outgrew the limit of its store. It would panic on another store's
/// memory.
#[verifier::external_body]
pub(crate) fn memory_data(guest: &Guest) -> (data: &[u8])
    requires
        guest.wf(),
    ensures
        data@ == memory_bytes(guest.store, guest.memory),
        data@.len() <= store_limits(guest.store).0,
{
    guest.memory.data(&guest.store)
}

} // verus!
