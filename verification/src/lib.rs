//! Execution of untrusted, pre-compiled sandboxed modules: a content-addressed
//! compilation cache, a host/guest calling protocol over linear memory, and the
//! envelope convention that carries guest results back to the caller.

pub mod codec;
pub mod envelope;
pub mod engine;
pub mod error;
pub mod memory;
pub mod protocol;
pub mod runtime;
pub mod stub;
pub mod value;
