use vstd::prelude::*;
use wasmer_cache::Cache;
use crate::protocol::ReturnValue;

verus! {

// The sandboxed-execution runtime and its cache, seen from the verified
// code: opaque handles and small trusted wrappers, one per operation the
// engine performs. Each wrapper's contract claims no more than the
// runtime's source shows for every outcome; what the guest computes is
// never promised.

#[verifier::external_type_specification]
#[verifier::external_body]
pub struct ExStore(wasmer::Store);

#[verifier::external_type_specification]
#[verifier::external_body]
pub struct ExModule(wasmer::Module);

#[verifier::external_type_specification]
#[verifier::external_body]
pub struct ExInstance(wasmer::Instance);

#[verifier::external_type_specification]
#[verifier::external_body]
pub struct ExMemory(wasmer::Memory);

#[verifier::external_type_specification]
#[verifier::external_body]
pub struct ExImports(wasmer::Imports);

/// The textual form of the deterministic digest of a byte sequence: the
/// content address under which a compiled artifact is cached. The digest
/// depends on the bytes alone.
pub uninterp spec fn hash_of(bytes: Seq<u8>) -> Seq<char>;

/// Relies on wasmer_cache::Hash::generate, a digest of the bytes alone,
/// and on its Display form: 64 hexadecimal characters.
#[verifier::external_body]
pub(crate) fn module_hash(bytes: &[u8]) -> (r: String)
    ensures
        r@ == hash_of(bytes@),
        r@.len() == 64,
{
    wasmer_cache::Hash::generate(bytes).to_string()
}

/// Relies on wasmer::Store::default: a fresh runtime store.
#[verifier::external_body]
pub(crate) fn store_default() -> wasmer::Store {
    wasmer::Store::default()
}

/// Relies on wasmer::Module::new: compiles module bytes, failing on a
/// malformed module. Nothing is assumed about which bytes compile.
#[verifier::external_body]
pub(crate) fn module_new(store: &wasmer::Store, bytes: &[u8]) -> (r: Result<wasmer::Module, String>)
{
    wasmer::Module::new(store, bytes).map_err(|e| e.to_string())
}

/// Relies on wasmer_cache::FileSystemCache::new, Hash::generate and
/// Cache::store: persists a compiled artifact under the content address
/// of its bytes, reporting failure. Nothing is assumed about the disk;
/// the store is a plain file create-and-write, so a concurrent reader
/// of the same key may observe a torn file — the loader treats any
/// undeserializable entry as a miss.
#[verifier::external_body]
pub(crate) fn store_artifact(dir: &str, bytes: &[u8], module: &wasmer::Module) -> (r: Result<
    (),
    String,
>) {
    match wasmer_cache::FileSystemCache::new(dir) {
        Ok(mut cache) => cache.store(wasmer_cache::Hash::generate(bytes), module).map_err(|e| e.to_string()),
        Err(e) => Err(e.to_string()),
    }
}

/// Relies on wasmer::Instance::new: instantiates a module against import
/// bindings, failing on an import mismatch or an invalid module.
#[verifier::external_body]
pub(crate) fn instance_new(
    store: &mut wasmer::Store,
    module: &wasmer::Module,
    imports: &wasmer::Imports,
) -> (r: Result<wasmer::Instance, String>) {
    wasmer::Instance::new(store, module, imports).map_err(|e| e.to_string())
}

/// Relies on wasmer::Exports::get for globals, Global::is_from_store and
/// Global::get: the value of an exported 32-bit integer global, if the
/// module has one. A global from another store is reported as absent
/// rather than read (reading it would abort inside the runtime).
#[verifier::external_body]
pub(crate) fn get_global_i32(
    instance: &wasmer::Instance,
    store: &mut wasmer::Store,
    name: &str,
) -> (r: Option<i32>) {
    match instance.exports.get::<wasmer::Global>(name) {
        Ok(g) if g.is_from_store(store) => match g.get(store) {
            wasmer::Value::I32(x) => Some(x),
            _ => None,
        },
        _ => None,
    }
}

/// Relies on wasmer::Exports::get for memories: the exported linear
/// memory of that name, a cheap cloneable handle.
#[verifier::external_body]
pub(crate) fn get_memory(instance: &wasmer::Instance, name: &str) -> (r: Result<
    wasmer::Memory,
    String,
>) {
    instance.exports.get::<wasmer::Memory>(name).cloned().map_err(|e| e.to_string())
}

/// Relies on wasmer::Memory::is_from_store and Memory::grow: grows the
/// memory by whole pages, failing past the module's limits. A memory
/// from another store is reported as a failure rather than touched
/// (touching it would abort inside the runtime).
#[verifier::external_body]
pub(crate) fn memory_grow(
    memory: &wasmer::Memory,
    store: &mut wasmer::Store,
    pages: u32,
) -> (r: Result<(), String>) {
    if !memory.is_from_store(store) {
        return Err("memory belongs to another store".to_string());
    }
    memory.grow(store, pages).map(|_| ()).map_err(|e| e.to_string())
}

/// Relies on wasmer::Memory::is_from_store, Memory::view and
/// MemoryView::write: writes the bytes at the offset, failing out of
/// bounds. A memory from another store is reported as a failure rather
/// than viewed (viewing it would abort inside the runtime).
#[verifier::external_body]
pub(crate) fn memory_write(
    memory: &wasmer::Memory,
    store: &wasmer::Store,
    offset: u64,
    bytes: &[u8],
) -> (r: Result<(), String>) {
    if !memory.is_from_store(store) {
        return Err("memory belongs to another store".to_string());
    }
    memory.view(store).write(offset, bytes).map_err(|e| e.to_string())
}

/// Relies on wasmer::Memory::is_from_store, Memory::view, WasmSlice::new
/// and read_to_vec: reads exactly `len` bytes at the offset, failing out
/// of bounds. A memory from another store is reported as a failure
/// rather than viewed (viewing it would abort inside the runtime). A
/// length beyond 32 bits is excluded: the runtime's read aborts rather
/// than fails where such a length cannot be addressed.
#[verifier::external_body]
pub(crate) fn memory_read(
    memory: &wasmer::Memory,
    store: &wasmer::Store,
    offset: u64,
    len: u64,
) -> (r: Result<Vec<u8>, String>)
    requires
        len <= u32::MAX,
    ensures
        r matches Ok(b) ==> b@.len() == len,
{
    if !memory.is_from_store(store) {
        return Err("memory belongs to another store".to_string());
    }
    let view = memory.view(store);
    match wasmer::WasmSlice::<u8>::new(&view, offset, len) {
        Ok(slice) => slice.read_to_vec().map_err(|e| e.to_string()),
        Err(e) => Err(e.to_string()),
    }
}

/// Relies on wasmer::Exports::get_function and Function::call: invokes the
/// exported entry function on one 32-bit argument and hands back whatever
/// values the guest returned, each either a 32-bit integer or something
/// else, with Function::is_from_store telling a function of another
/// store apart first (calling it would abort inside the runtime). A
/// guest trap or abort is a failure handed back here, never a crash of
/// this process.
#[verifier::external_body]
pub(crate) fn call_entry(
    instance: &wasmer::Instance,
    store: &mut wasmer::Store,
    name: &str,
    arg: i32,
) -> (r: Result<Vec<ReturnValue>, String>) {
    let function = match instance.exports.get_function(name) {
        Ok(f) if f.is_from_store(store) => f,
        Ok(_) => return Err("entry function belongs to another store".to_string()),
        Err(e) => return Err(e.to_string()),
    };
    match function.call(store, &[wasmer::Value::I32(arg)]) {
        Ok(values) => Ok(values.iter().map(|v| match v {
            wasmer::Value::I32(x) => ReturnValue::I32(*x),
            _ => ReturnValue::Other,
        }).collect()),
        Err(e) => Err(e.to_string()),
    }
}

} // verus!
