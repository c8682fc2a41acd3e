use vstd::prelude::*;
use vstd::string::StringExecFns;
use crate::codec::{encode, decode, decoded, encoding, encodable};
use crate::envelope::{unwrap_output, unwrap_spec};
use crate::error::{Error, ErrorKind};
use crate::protocol::{build_input_buffer, compute_pages_for, parse_entry_return, parse_output_record, select_heap_base};
use crate::runtime;
use crate::value::Value;

verus! {

/// Where compiled artifacts are persisted, keyed by content address.
pub const CACHE_DIR: &'static str = "target";

/// The execution engine: one runtime store, and a counter of how many
/// compilations it has performed, there for callers that watch the cache
/// at work. The design also gives an engine a guest-system-interface
/// environment bound to a fixed program identity; its runtime crate has a
/// dependency tree far larger than everything else combined and is not
/// among this crate's dependencies, so that environment cannot stand
/// here. The session phases below (`instantiate`, then `invoke`) leave
/// the driver room to initialize such an environment on the instance
/// between them and to tear it down afterwards.
pub struct Engine {
    store: wasmer::Store,
    compiles: u64,
}

impl Engine {
    /// How many compilations this engine has performed.
    pub closed spec fn compile_count(&self) -> u64 {
        self.compiles
    }

    /// How many compilations this engine has performed, for callers that
    /// watch the cache at work.
    pub fn compilations(&self) -> (n: u64)
        ensures
            n == self.compile_count(),
    {
        self.compiles
    }

    /// The engine's runtime store, for the caller's artifact loader: a
    /// persisted artifact can only be deserialized against the store it
    /// will run in.
    pub fn store(&self) -> &wasmer::Store {
        &self.store
    }

    /// A fresh engine around a default runtime store, with no
    /// compilations performed yet.
    pub fn new() -> (r: Result<Engine, Error>)
        ensures
            r matches Ok(e) && e.compile_count() == 0,
    {
        Ok(Engine { store: runtime::store_default(), compiles: 0 })
    }

    /// The content address a module's bytes are cached under.
    pub fn cache_key(bytes: &[u8]) -> (r: String)
        ensures
            r@ == runtime::hash_of(bytes@),
            r@.len() == 64,
    {
        runtime::module_hash(bytes)
    }

    /// Resolves a compiled artifact for `bytes`: a previously persisted
    /// artifact, when the caller's loader found one under the content
    /// address, is taken as it is and nothing is compiled; otherwise the
    /// bytes are compiled, the counter rises, and the artifact is
    /// persisted. A failed or missing load is never an error — it only
    /// costs the recompilation — while a compilation failure, and a
    /// failure to persist, are.
    pub fn get_or_compile(&mut self, bytes: &[u8], persisted: Option<wasmer::Module>) -> (r:
        Result<wasmer::Module, Error>)
        ensures
            persisted matches Some(m) ==> (r matches Ok(m2) && m2 == m) && final(self).compile_count() == old(self).compile_count(),
            persisted is None ==> (r matches Ok(_) ==> final(self).compile_count() == old(self).compile_count() + 1
                || old(self).compile_count() == u64::MAX),
            r matches Err(e) ==> persisted is None && (e.kind == ErrorKind::Compile || e.kind
                == ErrorKind::EnvironmentSetup),
            final(self).compile_count() == old(self).compile_count() || final(self).compile_count()
                == old(self).compile_count() + 1,
    {
        match persisted {
            Some(module) => Ok(module),
            None => {
                let module = match runtime::module_new(&self.store, bytes) {
                    Ok(module) => module,
                    Err(description) => {
                        return Err(Error::new(ErrorKind::Compile, description));
                    },
                };
                if self.compiles < u64::MAX {
                    self.compiles = self.compiles + 1;
                }
                if let Err(description) = runtime::store_artifact(CACHE_DIR, bytes, &module) {
                    return Err(Error::new(ErrorKind::EnvironmentSetup, description));
                }
                Ok(module)
            },
        }
    }

    /// Resolves the artifact and instantiates it against the given import
    /// bindings: the first phase of a call. Failures are typed: a
    /// malformed module is a compilation error, a persistence failure an
    /// environment error, and an import mismatch or invalid module an
    /// instantiation error; the entry point is not invoked and nothing is
    /// written to guest memory by this phase. Between this phase and
    /// `invoke` the driver may initialize a guest-system-interface
    /// environment on the instance.
    pub fn instantiate(
        &mut self,
        bytes: &[u8],
        persisted: Option<wasmer::Module>,
        imports: &wasmer::Imports,
    ) -> (r: Result<wasmer::Instance, Error>)
        ensures
            persisted matches Some(_) ==> final(self).compile_count() == old(self).compile_count(),
            persisted is None ==> (r matches Ok(_) ==> final(self).compile_count() == old(self).compile_count() + 1
                || old(self).compile_count() == u64::MAX),
            final(self).compile_count() == old(self).compile_count() || final(self).compile_count()
                == old(self).compile_count() + 1,
            r matches Err(e) ==> e.kind == ErrorKind::Compile || e.kind
                == ErrorKind::EnvironmentSetup || e.kind == ErrorKind::Instantiation,
    {
        let module = self.get_or_compile(bytes, persisted)?;
        match runtime::instance_new(&mut self.store, &module, imports) {
            Ok(instance) => Ok(instance),
            Err(d) => Err(Error::new(ErrorKind::Instantiation, d)),
        }
    }

    /// One invocation of an already instantiated module: serializes the
    /// input, frames and writes it, calls the entry point, and reads,
    /// decodes and unwraps whatever the guest left behind. An input the
    /// wire format cannot carry is rejected as a serialization error
    /// before anything touches the guest.
    pub fn invoke(&mut self, instance: &wasmer::Instance, input: &Value) -> (r: Result<
        Value,
        Error,
    >)
        ensures
            final(self).compile_count() == old(self).compile_count(),
            !encodable(input@) ==> (r matches Err(e) && e.kind == ErrorKind::Serialization),
            encodable(input@) && encoding(input@).len() > u32::MAX ==> (r matches Err(e) && e.kind
                == ErrorKind::Serialization),
            r matches Ok(_) ==> encodable(input@) && encoding(input@).len() <= u32::MAX,
            r matches Err(e) ==> e.kind != ErrorKind::Compile && e.kind
                != ErrorKind::EnvironmentSetup,
    {
        let serialized = encode(input)?;
        let input_buffer = build_input_buffer(&serialized)?;
        self.invoke_buffered(instance, input_buffer)
    }

    /// The guest-facing half of an invocation, on the framed input
    /// buffer: grow, write, call, read back, decode, unwrap. What the
    /// guest computed cannot be pinned by any sound contract — the
    /// result is whatever `interpret_output` makes of the bytes the
    /// guest left — so this states the failure taxonomy and leaves the
    /// exact output interpretation to that function's contract.
    fn invoke_buffered(&mut self, instance: &wasmer::Instance, input_buffer: Vec<u8>) -> (r:
        Result<Value, Error>)
        ensures
            final(self).compile_count() == old(self).compile_count(),
            r matches Err(e) ==> e.kind == ErrorKind::Instantiation || e.kind
                == ErrorKind::CallProtocol || e.kind == ErrorKind::Serialization || e.kind
                == ErrorKind::GuestReported,
    {
        // Place the buffer above the guest's static data and stack,
        // growing memory by whole pages until it contains the buffer at
        // that offset.
        let heap_base = select_heap_base(
            runtime::get_global_i32(instance, &mut self.store, "__heap_base"),
        );
        let memory = match runtime::get_memory(instance, "memory") {
            Ok(memory) => memory,
            Err(d) => {
                return Err(Error::new(ErrorKind::Instantiation, d));
            },
        };
        let pages = compute_pages_for(heap_base, input_buffer.len())?;
        if let Err(d) = runtime::memory_grow(&memory, &mut self.store, pages) {
            return Err(Error::new(ErrorKind::Instantiation, d));
        }
        if let Err(d) = runtime::memory_write(
            &memory,
            &self.store,
            heap_base as u64,
            input_buffer.as_slice(),
        ) {
            return Err(Error::new(ErrorKind::Instantiation, d));
        }

        // Invoke the guest entry point on the heap-base pointer. A trap
        // or abort in the guest comes back as a typed failure here,
        // never as a crash of this process.
        let arg = #[verifier::truncate] (heap_base as i32);
        let values = match runtime::call_entry(instance, &mut self.store, "main", arg) {
            Ok(values) => values,
            Err(d) => {
                return Err(Error::new(ErrorKind::CallProtocol, d));
            },
        };
        let record_ptr = parse_entry_return(&values)?;

        // Read the output record, then the output bytes it names.
        let raw_record = match runtime::memory_read(&memory, &self.store, record_ptr as u64, 8) {
            Ok(raw) => raw,
            Err(d) => {
                return Err(Error::new(ErrorKind::CallProtocol, d));
            },
        };
        let record = parse_output_record(&raw_record)?;
        let out_bytes = match runtime::memory_read(
            &memory,
            &self.store,
            record.ptr as u64,
            record.len as u64,
        ) {
            Ok(out) => out,
            Err(d) => {
                return Err(Error::new(ErrorKind::CallProtocol, d));
            },
        };
        Self::interpret_output(&out_bytes)
    }

    /// What the engine makes of the bytes a guest left behind, exact for
    /// every byte string: bytes that decode unwrap by the envelope
    /// convention — a carried value comes back, a guest-reported failure
    /// surfaces with its description — and undecodable bytes are a
    /// serialization error.
    pub fn interpret_output(out_bytes: &Vec<u8>) -> (r: Result<Value, Error>)
        ensures
            match decoded(out_bytes@) {
                Some(w) => match unwrap_spec(w) {
                    Ok(v) => r matches Ok(v2) && v2@ == v,
                    Err(d) => r matches Err(e) && e.kind == ErrorKind::GuestReported
                        && e.description@ == d,
                },
                None => r matches Err(e) && e.kind == ErrorKind::Serialization,
            },
    {
        let output = decode(out_bytes)?;
        unwrap_output(output)
    }

    /// One whole invocation: serialize and frame the input, resolve the
    /// artifact, instantiate, and invoke. The input is serialized before
    /// any runtime work — a deliberate deviation from the design's step
    /// order, which resolves the artifact first: an input the wire format
    /// cannot carry is then always a serialization error and costs
    /// neither compilation nor instantiation, and nothing else changes,
    /// only which error surfaces when both would fail. Every failure is
    /// terminal and typed; nothing is retried and no partial result comes
    /// back. This one-call form
    /// leaves no room for a guest-system-interface lifecycle; a driver
    /// that runs one uses the `instantiate` and `invoke` phases instead.
    pub fn run(
        &mut self,
        bytes: &[u8],
        input: &Value,
        persisted: Option<wasmer::Module>,
        imports: &wasmer::Imports,
    ) -> (r: Result<Value, Error>)
        ensures
            persisted matches Some(_) ==> final(self).compile_count() == old(self).compile_count(),
            persisted is None ==> (r matches Ok(_) ==> final(self).compile_count() == old(self).compile_count() + 1
                || old(self).compile_count() == u64::MAX),
            final(self).compile_count() == old(self).compile_count() || final(self).compile_count()
                == old(self).compile_count() + 1,
            !encodable(input@) ==> (r matches Err(e) && e.kind == ErrorKind::Serialization),
            encodable(input@) && encoding(input@).len() > u32::MAX ==> (r matches Err(e) && e.kind
                == ErrorKind::Serialization),
            r matches Ok(_) ==> encodable(input@) && encoding(input@).len() <= u32::MAX,
    {
        let serialized = encode(input)?;
        let input_buffer = build_input_buffer(&serialized)?;
        let instance = self.instantiate(bytes, persisted, imports)?;
        self.invoke_buffered(&instance, input_buffer)
    }
}

/// Hash determinism: the content address is a function of the module
/// bytes alone, so equal byte sequences always cache under equal keys.
/// (That distinct bytes get distinct keys is the digest's collision
/// resistance, relied on but not statable.)
pub proof fn lemma_hash_deterministic(a: Seq<u8>, b: Seq<u8>)
    requires
        a == b,
    ensures
        runtime::hash_of(a) == runtime::hash_of(b),
{
}

} // verus!
