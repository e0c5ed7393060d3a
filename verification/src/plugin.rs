//! Sandboxed request-filter plugins compiled to WASM.
//!
//! A plugin sees only the request method and path and answers "allow" or
//! "deny with an HTTP status". No host functions are exposed, so wasmtime's
//! sandbox is the whole security boundary, and every call runs on a fuel
//! budget so a plugin cannot hang a request by looping forever.
//!
//! A plugin module exports `memory`, `alloc(len: i32) -> i32`, and
//! `on_request(method_ptr, method_len, path_ptr, path_len) -> i32`, which
//! returns 0 to allow, a status in 400..600 to deny with it, and anything
//! else to deny with 403.
use vstd::prelude::*;
use wasmtime::{Config as WasmConfig, Engine, Instance, Memory, Module, Store, TypedFunc};
use crate::config::RouteConfig;
use crate::text::str_eq;
use vstd::utf8::encode_utf8;

verus! {

#[verifier::external_type_specification]
#[verifier::external_body]
pub struct ExEngine(Engine);

#[verifier::external_type_specification]
#[verifier::external_body]
pub struct ExModule(Module);

#[verifier::external_type_specification]
#[verifier::external_body]
pub struct ExInstance(Instance);

#[verifier::external_type_specification]
#[verifier::external_body]
pub struct ExMemory(Memory);

#[verifier::external_type_specification]
#[verifier::external_body]
#[verifier::reject_recursive_types(T)]
pub struct ExStore<T: 'static>(Store<T>);

#[verifier::external_type_specification]
#[verifier::external_body]
#[verifier::reject_recursive_types(Params)]
#[verifier::reject_recursive_types(Results)]
pub struct ExTypedFunc<Params, Results>(TypedFunc<Params, Results>);

/// Fuel a single plugin call may burn before it is stopped.
pub const FUEL_PER_CALL: u64 = 5_000_000;

/// A plugin's answer for one request.
#[derive(Debug, Clone, Copy, PartialEq, Eq, Structural)]
pub enum Verdict {
    Allow,
    Deny(u16),
}

/// The verdict that `on_request`'s return value stands for.
pub open spec fn spec_verdict_for_code(code: i32) -> Verdict {
    if code == 0 {
        Verdict::Allow
    } else if 400 <= code < 600 {
        Verdict::Deny(code as u16)
    } else {
        Verdict::Deny(403)
    }
}

/// The verdict of a plugin run: what `on_request` returned, or a 500 when
/// the plugin failed (a trap, running out of fuel, a bad export). A
/// failing plugin is a plugin bug, and the request is denied rather than
/// let through.
pub open spec fn spec_verdict(outcome: Option<i32>) -> Verdict {
    match outcome {
        Some(code) => spec_verdict_for_code(code),
        None => Verdict::Deny(500),
    }
}

/// The verdict that `on_request`'s return value stands for.
pub fn verdict_for_code(code: i32) -> (v: Verdict)
    ensures
        v == spec_verdict_for_code(code),
{
    if code == 0 {
        Verdict::Allow
    } else if 400 <= code && code < 600 {
        Verdict::Deny(code as u16)
    } else {
        Verdict::Deny(403)
    }
}

/// The verdict of a plugin run, given what `on_request` returned or `None`
/// when the run failed.
pub fn verdict_of(outcome: Option<i32>) -> (v: Verdict)
    ensures
        v == spec_verdict(outcome),
        v matches Verdict::Deny(c) ==> 400 <= c < 600,
{
    match outcome {
        Some(code) => verdict_for_code(code),
        None => Verdict::Deny(500),
    }
}

/// Why a plugin module could not be loaded.
#[derive(Debug, Clone, PartialEq, Eq)]
pub enum PluginLoadError {
    /// The wasmtime engine could not be set up.
    Engine,
    /// The bytes are not a valid WASM module.
    Compile,
    /// The module lacks one of the exports a plugin needs.
    MissingExport(String),
}

impl PluginLoadError {
    pub open spec fn spec_message(&self) -> Seq<char> {
        match self {
            PluginLoadError::Engine => "initializing wasmtime engine"@,
            PluginLoadError::Compile => "compiling plugin (must be a valid WASM module)"@,
            PluginLoadError::MissingExport(name) => if name@ == "memory"@ {
                "plugin is missing the exported `memory`"@
            } else {
                "plugin is missing the required export `"@ + name@ + "`"@
            },
        }
    }

    /// The human-readable text of this error.
    pub fn message(&self) -> (m: String)
        ensures
            m@ == self.spec_message(),
    {
        match self {
            PluginLoadError::Engine => String::from_str("initializing wasmtime engine"),
            PluginLoadError::Compile => String::from_str("compiling plugin (must be a valid WASM module)"),
            PluginLoadError::MissingExport(name) => {
                if str_eq(name.as_str(), "memory") {
                    return String::from_str("plugin is missing the exported `memory`");
                }
                let mut m = String::from_str("plugin is missing the required export `");
                m.append(name.as_str());
                m.append("`");
                m
            },
        }
    }
}

/// Address space each plugin instance's linear memory reserves up front.
/// Every call instantiates the plugin afresh, so this is reserved once per
/// request: 16 MiB rather than wasmtime's 4 GiB default keeps plugin calls
/// working in processes with a bounded address space. Memories still grow
/// on demand; accesses are bounds-checked explicitly instead.
pub const PLUGIN_MEMORY_RESERVATION: u64 = 16777216;

/// Guard region after each plugin linear memory.
pub const PLUGIN_MEMORY_GUARD: u64 = 65536;

/// Address space reserved again each time a plugin memory outgrows its
/// reservation.
pub const PLUGIN_MEMORY_GROWTH: u64 = 16777216;

/// The engine settings plugins run under.
#[derive(Debug, Clone, Copy, PartialEq, Eq, Structural)]
pub struct EngineSettings {
    /// Whether execution burns fuel, so that a call can be cut off.
    pub consume_fuel: bool,
    /// Bytes of address space reserved for each linear memory.
    pub memory_reservation: u64,
    /// Bytes of guard region after each linear memory.
    pub memory_guard: u64,
    /// Bytes reserved again when a memory outgrows its reservation.
    pub memory_growth: u64,
}

/// Fuel metering on, and the plugin memory settings above.
pub open spec fn spec_plugin_engine_settings() -> EngineSettings {
    EngineSettings {
        consume_fuel: true,
        memory_reservation: PLUGIN_MEMORY_RESERVATION,
        memory_guard: PLUGIN_MEMORY_GUARD,
        memory_growth: PLUGIN_MEMORY_GROWTH,
    }
}

/// The settings the plugin engine is built with.
pub fn plugin_engine_settings() -> (s: EngineSettings)
    ensures
        s == spec_plugin_engine_settings(),
        s.consume_fuel,
        s.memory_reservation == 16777216,
        s.memory_guard == 65536,
        s.memory_growth == 16777216,
{
    EngineSettings {
        consume_fuel: true,
        memory_reservation: PLUGIN_MEMORY_RESERVATION,
        memory_guard: PLUGIN_MEMORY_GUARD,
        memory_growth: PLUGIN_MEMORY_GROWTH,
    }
}

/// `wasmtime::Engine::new` on a `wasmtime::Config` that carries `settings`
/// (`consume_fuel`, `memory_reservation`, `memory_guard_size`,
/// `memory_reservation_for_growth`, the rest left at wasmtime's defaults);
/// `None` when wasmtime refuses the configuration on this host. Plugins
/// only ever get an engine with the plugin settings.
#[verifier::external_body]
fn new_engine(settings: EngineSettings) -> (r: Option<Engine>)
    requires
        settings == spec_plugin_engine_settings(),
{
    let mut config = WasmConfig::new();
    config.consume_fuel(settings.consume_fuel);
    config.memory_reservation(settings.memory_reservation);
    config.memory_guard_size(settings.memory_guard);
    config.memory_reservation_for_growth(settings.memory_growth);
    Engine::new(&config).ok()
}

/// `wasmtime::Module::new`: compile `bytes`; `None` when they are not a
/// valid module.
#[verifier::external_body]
fn compile_module(engine: &Engine, bytes: &[u8]) -> Option<Module> {
    Module::new(engine, bytes).ok()
}

/// `wasmtime::Module::get_export` found an export named `name`.
#[verifier::external_body]
fn module_exports(module: &Module, name: &str) -> bool {
    module.get_export(name).is_some()
}

/// `wasmtime::Store::new` with no host state: a store of its own, sharing
/// nothing with any other.
#[verifier::external_body]
fn new_store(engine: &Engine) -> Store<()> {
    Store::new(engine, ())
}

/// `wasmtime::Store::set_fuel`; false when the engine does not meter fuel.
/// A plugin call is only ever given `FUEL_PER_CALL`.
#[verifier::external_body]
fn set_store_fuel(store: &mut Store<()>, fuel: u64) -> bool
    requires
        fuel == FUEL_PER_CALL,
{
    store.set_fuel(fuel).is_ok()
}

/// `wasmtime::Instance::new` of `module` in `store`, with no imports;
/// `None` when instantiation fails.
#[verifier::external_body]
fn instantiate(store: &mut Store<()>, module: &Module) -> Option<Instance> {
    Instance::new(store, module, &[]).ok()
}

/// An instantiated plugin together with the store that owns it, the
/// exports bound so far, and the record of what was written into its
/// memory, in order, as `(guest address, bytes)`. Every handle here comes
/// from `store` itself, and only the functions below set the fields, so
/// wasmtime is never handed a handle that another store owns (which it
/// answers with a panic).
pub struct Guest {
    store: Store<()>,
    instance: Instance,
    memory: Option<Memory>,
    alloc: Option<TypedFunc<i32, i32>>,
    on_request: Option<TypedFunc<(i32, i32, i32, i32), i32>>,
    written: Ghost<Seq<(i32, Seq<u8>)>>,
}

impl Guest {
    pub closed spec fn has_memory(&self) -> bool {
        self.memory is Some
    }

    pub closed spec fn has_alloc(&self) -> bool {
        self.alloc is Some
    }

    pub closed spec fn has_on_request(&self) -> bool {
        self.on_request is Some
    }

    /// What was copied into the guest's memory so far, in order.
    pub closed spec fn written(&self) -> Seq<(i32, Seq<u8>)> {
        self.written@
    }

    /// The exports and the write record are as `other`'s.
    pub open spec fn same_bindings(&self, other: &Guest) -> bool {
        &&& self.has_memory() == other.has_memory()
        &&& self.has_alloc() == other.has_alloc()
        &&& self.has_on_request() == other.has_on_request()
        &&& self.written() == other.written()
    }
}

/// A freshly instantiated guest in a fresh store: nothing bound, nothing
/// written.
fn new_guest(engine: &Engine, module: &Module) -> (r: Option<Guest>)
    ensures
        r matches Some(g) ==> !g.has_memory() && !g.has_alloc() && !g.has_on_request()
            && g.written() == Seq::<(i32, Seq<u8>)>::empty(),
{
    let mut store = new_store(engine);
    match instantiate(&mut store, module) {
        Some(instance) => Some(Guest {
            store,
            instance,
            memory: None,
            alloc: None,
            on_request: None,
            written: Ghost(Seq::empty()),
        }),
        None => None,
    }
}

/// `wasmtime::Store::set_fuel` on the guest's store (see `set_store_fuel`).
fn fuel_guest(g: &mut Guest) -> (r: bool)
    ensures
        final(g).same_bindings(old(g)),
{
    set_store_fuel(&mut g.store, FUEL_PER_CALL)
}

/// `wasmtime::Instance::get_memory` of the guest's own instance, bound as
/// its memory; whether the export exists.
#[verifier::external_body]
fn bind_memory(g: &mut Guest, name: &str) -> (r: bool)
    ensures
        final(g).has_memory() == r,
        final(g).has_alloc() == old(g).has_alloc(),
        final(g).has_on_request() == old(g).has_on_request(),
        final(g).written() == old(g).written(),
{
    g.memory = g.instance.get_memory(&mut g.store, name);
    g.memory.is_some()
}

/// `wasmtime::Instance::get_typed_func` for a `(i32) -> i32` export of the
/// guest's own instance, bound as its allocator; whether it exists with
/// that signature.
#[verifier::external_body]
fn bind_alloc(g: &mut Guest, name: &str) -> (r: bool)
    ensures
        final(g).has_alloc() == r,
        final(g).has_memory() == old(g).has_memory(),
        final(g).has_on_request() == old(g).has_on_request(),
        final(g).written() == old(g).written(),
{
    g.alloc = g.instance.get_typed_func::<i32, i32>(&mut g.store, name).ok();
    g.alloc.is_some()
}

/// `wasmtime::Instance::get_typed_func` for a `(i32, i32, i32, i32) -> i32`
/// export of the guest's own instance, bound as its request hook; whether
/// it exists with that signature.
#[verifier::external_body]
fn bind_on_request(g: &mut Guest, name: &str) -> (r: bool)
    ensures
        final(g).has_on_request() == r,
        final(g).has_memory() == old(g).has_memory(),
        final(g).has_alloc() == old(g).has_alloc(),
        final(g).written() == old(g).written(),
{
    g.on_request = g.instance.get_typed_func::<(i32, i32, i32, i32), i32>(&mut g.store, name).ok();
    g.on_request.is_some()
}

/// `wasmtime::TypedFunc::call` of the bound allocator in the guest's own
/// store; `None` on a trap.
#[verifier::external_body]
fn call_alloc(g: &mut Guest, len: i32) -> (r: Option<i32>)
    requires
        old(g).has_alloc(),
    ensures
        final(g).same_bindings(old(g)),
{
    match &g.alloc {
        Some(f) => f.call(&mut g.store, len).ok(),
        None => None,
    }
}

/// `wasmtime::Memory::write` of `bytes` at guest address `ptr` into the
/// bound memory, in the guest's own store; false when the range is outside
/// the memory.
#[verifier::external_body]
fn write_memory(g: &mut Guest, ptr: i32, bytes: &[u8]) -> (r: bool)
    requires
        old(g).has_memory(),
    ensures
        final(g).same_bindings(old(g)),
{
    match &g.memory {
        Some(m) => m.write(&mut g.store, ptr as usize, bytes).is_ok(),
        None => false,
    }
}

/// `wasmtime::TypedFunc::call` of the bound request hook in the guest's own
/// store; `None` on a trap, running out of fuel included. The hook is only
/// ever handed the addresses and byte lengths of the two strings written
/// into the guest, method first.
#[verifier::external_body]
fn call_on_request(g: &mut Guest, args: (i32, i32, i32, i32)) -> (r: Option<i32>)
    requires
        old(g).has_on_request(),
        old(g).written().len() == 2,
        args == (
            old(g).written()[0].0,
            old(g).written()[0].1.len() as i32,
            old(g).written()[1].0,
            old(g).written()[1].1.len() as i32,
        ),
{
    match &g.on_request {
        Some(f) => f.call(&mut g.store, args).ok(),
        None => None,
    }
}

/// Copy `bytes` into guest memory through the plugin's `alloc`: the guest
/// address `alloc` returned, or the step that failed (the call trapped, or
/// the write fell outside the memory). `alloc` is asked for the byte length
/// as an `i32`; a successful copy is added to the guest's write record.
fn write_bytes(g: &mut Guest, bytes: &[u8]) -> (r: Result<i32, PluginRunError>)
    requires
        old(g).has_alloc(),
        old(g).has_memory(),
    ensures
        final(g).has_memory() == old(g).has_memory(),
        final(g).has_alloc() == old(g).has_alloc(),
        final(g).has_on_request() == old(g).has_on_request(),
        match r {
            Ok(ptr) => final(g).written() == old(g).written().push((ptr, bytes@)),
            Err(e) => e == PluginRunError::AllocCall || e == PluginRunError::MemoryWrite,
        },
{
    let len = bytes.len() as i32;
    match call_alloc(g, len) {
        Some(ptr) => if write_memory(g, ptr, bytes) {
            proof {
                g.written@ = g.written@.push((ptr, bytes@));
            }
            Ok(ptr)
        } else {
            Err(PluginRunError::MemoryWrite)
        },
        None => Err(PluginRunError::AllocCall),
    }
}

/// What `on_request` is handed: each string's guest address and its length
/// in UTF-8 bytes as an `i32`.
pub open spec fn spec_guest_args(method_ptr: i32, method: Seq<char>, path_ptr: i32, path: Seq<char>) -> (i32, i32, i32, i32) {
    (method_ptr, encode_utf8(method).len() as i32, path_ptr, encode_utf8(path).len() as i32)
}

/// The arguments `on_request` is called with.
pub fn guest_args(method_ptr: i32, method: &str, path_ptr: i32, path: &str) -> (r: (i32, i32, i32, i32))
    ensures
        r == spec_guest_args(method_ptr, method@, path_ptr, path@),
{
    let method_len = method.as_bytes().len() as i32;
    let path_len = path.as_bytes().len() as i32;
    (method_ptr, method_len, path_ptr, path_len)
}

/// The error for a module's exports: the first of `on_request`, `alloc`
/// and `memory` that is missing, or none when all three are there.
pub open spec fn spec_missing_export(has_on_request: bool, has_alloc: bool, has_memory: bool) -> Option<Seq<char>> {
    if !has_on_request {
        Some("on_request"@)
    } else if !has_alloc {
        Some("alloc"@)
    } else if !has_memory {
        Some("memory"@)
    } else {
        None
    }
}

/// Which required export is missing, checked in the order `on_request`,
/// `alloc`, `memory`.
pub fn missing_export(has_on_request: bool, has_alloc: bool, has_memory: bool) -> (r: Option<String>)
    ensures
        match spec_missing_export(has_on_request, has_alloc, has_memory) {
            Some(n) => r matches Some(s) && s@ == n,
            None => r is None,
        },
{
    if !has_on_request {
        Some("on_request".to_owned())
    } else if !has_alloc {
        Some("alloc".to_owned())
    } else if !has_memory {
        Some("memory".to_owned())
    } else {
        None
    }
}

/// The step at which running a plugin failed.
#[derive(Debug, Clone, Copy, PartialEq, Eq, Structural)]
pub enum PluginRunError {
    /// The store refused the fuel budget.
    Fuel,
    /// The module could not be instantiated.
    Instantiate,
    /// The instance exports no memory named `memory`.
    NoMemory,
    /// `alloc` is missing or not `(i32) -> i32`.
    AllocSignature,
    /// `on_request` is missing or not `(i32, i32, i32, i32) -> i32`.
    OnRequestSignature,
    /// A call of `alloc` trapped.
    AllocCall,
    /// A write fell outside the plugin's memory.
    MemoryWrite,
    /// `on_request` trapped, running out of fuel included.
    Trap,
}

impl PluginRunError {
    pub open spec fn spec_message(&self) -> Seq<char> {
        match self {
            PluginRunError::Fuel => "setting fuel budget"@,
            PluginRunError::Instantiate => "instantiating plugin"@,
            PluginRunError::NoMemory => "plugin has no memory export"@,
            PluginRunError::AllocSignature => "plugin `alloc` has the wrong signature (expected (i32) -> i32)"@,
            PluginRunError::OnRequestSignature => "plugin `on_request` has the wrong signature"@,
            PluginRunError::AllocCall => "plugin alloc() call failed"@,
            PluginRunError::MemoryWrite => "writing into plugin memory"@,
            PluginRunError::Trap => "plugin `on_request` trapped (possibly out of fuel)"@,
        }
    }

    /// The human-readable text of this error.
    pub fn message(&self) -> (m: String)
        ensures
            m@ == self.spec_message(),
    {
        match self {
            PluginRunError::Fuel => String::from_str("setting fuel budget"),
            PluginRunError::Instantiate => String::from_str("instantiating plugin"),
            PluginRunError::NoMemory => String::from_str("plugin has no memory export"),
            PluginRunError::AllocSignature => String::from_str(
                "plugin `alloc` has the wrong signature (expected (i32) -> i32)",
            ),
            PluginRunError::OnRequestSignature => String::from_str("plugin `on_request` has the wrong signature"),
            PluginRunError::AllocCall => String::from_str("plugin alloc() call failed"),
            PluginRunError::MemoryWrite => String::from_str("writing into plugin memory"),
            PluginRunError::Trap => String::from_str("plugin `on_request` trapped (possibly out of fuel)"),
        }
    }
}

/// A compiled plugin module, and the engine it was compiled for. Each call
/// runs in a fresh store, so calls never share state.
pub struct Plugin {
    engine: Engine,
    module: Module,
    settings: Ghost<EngineSettings>,
}

impl Plugin {
    /// The settings the plugin's engine was built with.
    pub closed spec fn engine_settings(&self) -> EngineSettings {
        self.settings@
    }

    /// Compile a plugin from the bytes of its WASM module, and check that
    /// it has the exports a plugin needs. The engine is built with
    /// `plugin_engine_settings`; which export is reported missing is
    /// `missing_export`'s answer for what the module exports.
    pub fn load(wasm: &[u8]) -> (r: Result<Plugin, PluginLoadError>)
        ensures
            r matches Ok(p) ==> p.engine_settings() == spec_plugin_engine_settings(),
            r matches Err(PluginLoadError::MissingExport(name))
                ==> exists|a: bool, b: bool, c: bool| spec_missing_export(a, b, c) == Some(name@),
    {
        let settings = plugin_engine_settings();
        let engine = match new_engine(settings) {
            Some(e) => e,
            None => {
                return Err(PluginLoadError::Engine);
            },
        };
        let module = match compile_module(&engine, wasm) {
            Some(m) => m,
            None => {
                return Err(PluginLoadError::Compile);
            },
        };
        let has_on_request = module_exports(&module, "on_request");
        let has_alloc = module_exports(&module, "alloc");
        let has_memory = module_exports(&module, "memory");
        match missing_export(has_on_request, has_alloc, has_memory) {
            Some(name) => Err(PluginLoadError::MissingExport(name)),
            None => Ok(Plugin { engine, module, settings: Ghost(settings) }),
        }
    }

    /// Run `on_request` for one request in a fresh store with a fresh fuel
    /// budget of `FUEL_PER_CALL`: its return value, or the step that failed
    /// (the fuel budget, instantiation, a missing or mistyped export,
    /// `alloc`, a memory write, or a trap, running out of fuel included).
    /// The hook gets the guest addresses and UTF-8 byte lengths of `method`
    /// and `path`.
    pub fn try_evaluate(&self, method: &str, path: &str) -> Result<i32, PluginRunError> {
        let mut guest = match new_guest(&self.engine, &self.module) {
            Some(g) => g,
            None => {
                return Err(PluginRunError::Instantiate);
            },
        };
        if !fuel_guest(&mut guest) {
            return Err(PluginRunError::Fuel);
        }
        if !bind_memory(&mut guest, "memory") {
            return Err(PluginRunError::NoMemory);
        }
        if !bind_alloc(&mut guest, "alloc") {
            return Err(PluginRunError::AllocSignature);
        }
        if !bind_on_request(&mut guest, "on_request") {
            return Err(PluginRunError::OnRequestSignature);
        }
        let method_ptr = match write_bytes(&mut guest, method.as_bytes()) {
            Ok(p) => p,
            Err(e) => {
                return Err(e);
            },
        };
        let path_ptr = match write_bytes(&mut guest, path.as_bytes()) {
            Ok(p) => p,
            Err(e) => {
                return Err(e);
            },
        };
        let args = guest_args(method_ptr, method, path_ptr, path);
        match call_on_request(&mut guest, args) {
            Some(code) => Ok(code),
            None => Err(PluginRunError::Trap),
        }
    }

    /// The plugin's verdict on one request: `verdict_of` of the outcome of
    /// `try_evaluate`. A plugin that fails is denied with 500; every denial
    /// carries a status in 400..600.
    pub fn evaluate(&self, method: &str, path: &str) -> (v: Verdict)
        ensures
            v is Allow || (v matches Verdict::Deny(c) && 400 <= c < 600),
    {
        let outcome = match self.try_evaluate(method, path) {
            Ok(code) => Some(code),
            Err(_) => None,
        };
        verdict_of(outcome)
    }
}

/// The plugin files a configuration needs, once each, in order of first
/// use, with the first route that names each.
pub open spec fn plugin_loads(routes: Seq<RouteConfig>) -> Seq<(Seq<char>, Seq<char>)>
    decreases routes.len(),
{
    if routes.len() == 0 {
        Seq::empty()
    } else {
        let prev = plugin_loads(routes.drop_last());
        let r = routes.last();
        match r.plugin {
            Some(p) => if exists|i: int| 0 <= i < prev.len() && (#[trigger] prev[i]).1 == p@ {
                prev
            } else {
                prev.push((r.name@, p@))
            },
            None => prev,
        }
    }
}

pub open spec fn pairs_of(v: Seq<(String, String)>) -> Seq<(Seq<char>, Seq<char>)> {
    v.map_values(|p: (String, String)| (p.0@, p.1@))
}

/// `(route name, plugin path)` for every plugin file the routes name,
/// deduplicated by path.
pub fn plugin_paths(routes: &Vec<RouteConfig>) -> (r: Vec<(String, String)>)
    ensures
        pairs_of(r@) == plugin_loads(routes@),
{
    let mut out: Vec<(String, String)> = Vec::new();
    let mut i: usize = 0;
    while i < routes.len()
        invariant
            i <= routes@.len(),
            pairs_of(out@) == plugin_loads(routes@.take(i as int)),
        decreases routes@.len() - i,
    {
        let r = &routes[i];
        assert(routes@.take(i + 1).drop_last() =~= routes@.take(i as int));
        if let Some(p) = &r.plugin {
            let ghost prev = pairs_of(out@);
            let mut seen = false;
            let mut j: usize = 0;
            while j < out.len()
                invariant
                    j <= out@.len(),
                    prev == pairs_of(out@),
                    seen == exists|k: int| 0 <= k < j && (#[trigger] prev[k]).1 == p@,
                decreases out@.len() - j,
            {
                if str_eq(out[j].1.as_str(), p.as_str()) {
                    assert(prev[j as int].1 == p@);
                    seen = true;
                }
                j = j + 1;
            }
            if !seen {
                out.push((r.name.clone(), p.clone()));
                assert(pairs_of(out@) =~= prev.push((r.name@, p@)));
            }
        }
        i = i + 1;
    }
    assert(routes@.take(i as int) =~= routes@);
    out
}

/// What a plugin's answer means: 0 allows; a code in 400..=599 denies with
/// that status; any other code denies with 403; a failed run denies with
/// 500. Every denial carries a status in 400..=599.
pub proof fn law_verdict_meaning(code: i32)
    ensures
        code == 0 ==> spec_verdict(Some(code)) == Verdict::Allow,
        400 <= code < 600 ==> spec_verdict(Some(code)) == Verdict::Deny(code as u16),
        code != 0 && !(400 <= code < 600) ==> spec_verdict(Some(code)) == Verdict::Deny(403),
        spec_verdict(None) == Verdict::Deny(500),
        spec_verdict(Some(code)) matches Verdict::Deny(c) ==> 400 <= c < 600,
{
}

} // verus!
