use vstd::prelude::*;
use vstd::bytes::{spec_u32_to_le_bytes, spec_u32_from_le_bytes, u32_to_le_bytes, u32_from_le_bytes, lemma_auto_spec_u32_to_from_le_bytes};
use vstd::string::StringExecFns;
use vstd::slice::slice_subrange;
use crate::error::{Error, ErrorKind};

verus! {

/// Number of bytes in one linear-memory page, a constant shared by the host
/// and guest toolchains.
pub const WASM_PAGE_SIZE: usize = 65536;

/// Offset used for host scratch data when the module exports no usable
/// heap-base global: writing below the guest's heap base would corrupt its
/// static data and stack.
pub const DEFAULT_HEAP_BASE: u32 = 0x100000;

/// The bytes written into guest memory for one invocation: a 4-byte
/// little-endian length header followed by the serialized payload.
pub open spec fn input_buffer_bytes(payload: Seq<u8>) -> Seq<u8>
    recommends
        payload.len() <= u32::MAX,
{
    spec_u32_to_le_bytes(payload.len() as u32) + payload
}

/// Builds the input buffer for a serialized payload. A payload too long for
/// its 4-byte length header is rejected rather than truncated.
pub fn build_input_buffer(payload: &Vec<u8>) -> (r: Result<Vec<u8>, Error>)
    ensures
        match r {
            Ok(buf) => payload@.len() <= u32::MAX && buf@ == input_buffer_bytes(payload@),
            Err(e) => payload@.len() > u32::MAX && e.kind == ErrorKind::Serialization,
        },
{
    if payload.len() > u32::MAX as usize {
        return Err(Error::new(
            ErrorKind::Serialization,
            String::from_str("input payload does not fit a 4-byte length header"),
        ));
    }
    let mut buf = u32_to_le_bytes(payload.len() as u32);
    for i in 0..payload.len()
        invariant
            payload@.len() <= u32::MAX,
            buf@ == spec_u32_to_le_bytes(payload@.len() as u32) + payload@.subrange(0, i as int),
    {
        buf.push(payload[i]);
        proof {
            assert(payload@.subrange(0, i as int).push(payload@[i as int])
                =~= payload@.subrange(0, i + 1 as int));
        }
    }
    proof {
        assert(payload@.subrange(0, payload@.len() as int) =~= payload@);
    }
    Ok(buf)
}

/// Whole pages to grow guest memory by, so that the input buffer fits above
/// the heap base: one page more than the buffer fills on its own.
pub open spec fn pages_needed(len: nat) -> nat {
    len / (WASM_PAGE_SIZE as nat) + 1
}

/// Computes the page count for a buffer of `len` bytes, rejecting a count
/// that does not fit the runtime's 32-bit page argument.
pub fn compute_pages(len: usize) -> (r: Result<u32, Error>)
    ensures
        match r {
            Ok(p) => p == pages_needed(len as nat),
            Err(e) => pages_needed(len as nat) > u32::MAX && e.kind == ErrorKind::Instantiation,
        },
{
    let pages = len / WASM_PAGE_SIZE + 1;
    if pages > u32::MAX as usize {
        return Err(Error::new(
            ErrorKind::Instantiation,
            String::from_str("input buffer exceeds the growable memory range"),
        ));
    }
    Ok(pages as u32)
}

/// Computes the pages to grow guest memory by so that, whatever its size
/// already is, it then contains a buffer of `len` bytes laid down at
/// `heap_base`. A count that does not fit the runtime's 32-bit page
/// argument is rejected.
pub fn compute_pages_for(heap_base: u32, len: usize) -> (r: Result<u32, Error>)
    ensures
        match r {
            Ok(p) => p == pages_needed((heap_base + len) as nat) && p * WASM_PAGE_SIZE > heap_base
                + len,
            Err(e) => pages_needed((heap_base + len) as nat) > u32::MAX && e.kind
                == ErrorKind::Instantiation,
        },
{
    if len as u64 > u64::MAX - heap_base as u64 {
        proof {
            vstd::arithmetic::div_mod::lemma_div_is_ordered(
                u64::MAX + 1,
                heap_base + len,
                WASM_PAGE_SIZE as int,
            );
        }
        return Err(Error::new(
            ErrorKind::Instantiation,
            String::from_str("input buffer exceeds the growable memory range"),
        ));
    }
    let total = heap_base as u64 + len as u64;
    let pages = total / WASM_PAGE_SIZE as u64 + 1;
    if pages > u32::MAX as u64 {
        return Err(Error::new(
            ErrorKind::Instantiation,
            String::from_str("input buffer exceeds the growable memory range"),
        ));
    }
    proof {
        vstd::arithmetic::div_mod::lemma_fundamental_div_mod(
            heap_base + len,
            WASM_PAGE_SIZE as int,
        );
    }
    Ok(pages as u32)
}

/// Chooses the offset at which the input buffer is written: the exported
/// heap-base global, read as an unsigned offset, when the module exposes
/// one, and the fixed default otherwise.
pub fn select_heap_base(exported: Option<i32>) -> (r: u32)
    ensures
        match exported {
            Some(h) => r == h as u32,
            None => r == DEFAULT_HEAP_BASE,
        },
{
    match exported {
        Some(h) => #[verifier::truncate] (h as u32),
        None => DEFAULT_HEAP_BASE,
    }
}

/// The 8-byte structure the guest leaves in its memory: the output length,
/// then the pointer to the output bytes, both 4-byte little-endian.
#[derive(Clone, Copy, PartialEq, Eq, Structural, Debug)]
pub struct OutputRecord {
    pub len: u32,
    pub ptr: u32,
}

/// The record described by 8 bytes of guest memory.
pub open spec fn record_of(bytes: Seq<u8>) -> OutputRecord
    recommends
        bytes.len() == 8,
{
    OutputRecord {
        len: spec_u32_from_le_bytes(bytes.subrange(0, 4)),
        ptr: spec_u32_from_le_bytes(bytes.subrange(4, 8)),
    }
}

/// Reads an output record out of the 8 bytes fetched at the address the
/// guest returned.
pub fn parse_output_record(bytes: &Vec<u8>) -> (r: Result<OutputRecord, Error>)
    ensures
        match r {
            Ok(rec) => bytes@.len() == 8 && rec == record_of(bytes@),
            Err(e) => bytes@.len() != 8 && e.kind == ErrorKind::CallProtocol,
        },
{
    if bytes.len() != 8 {
        return Err(Error::new(
            ErrorKind::CallProtocol,
            String::from_str("guest memory did not yield an 8-byte output record"),
        ));
    }
    let len = u32_from_le_bytes(slice_subrange(bytes.as_slice(), 0, 4));
    let ptr = u32_from_le_bytes(slice_subrange(bytes.as_slice(), 4, 8));
    Ok(OutputRecord { len, ptr })
}

/// The 8 bytes of an output record: the length, then the pointer, each
/// 4-byte little-endian.
pub fn make_record_bytes(len: u32, ptr: u32) -> (r: Vec<u8>)
    ensures
        r@ == spec_u32_to_le_bytes(len) + spec_u32_to_le_bytes(ptr),
        r@.len() == 8,
{
    let mut r = u32_to_le_bytes(len);
    let mut p = u32_to_le_bytes(ptr);
    r.append(&mut p);
    r
}

/// One value handed back by the guest entry point, as the host sees it: a
/// 32-bit integer or something else.
#[derive(Clone, Copy, PartialEq, Eq, Structural, Debug)]
pub enum ReturnValue {
    I32(i32),
    Other,
}

/// Whether a return-value list conforms to the calling convention: exactly
/// one non-negative 32-bit integer, the address of the output record.
pub open spec fn conforming_return(values: Seq<ReturnValue>) -> bool {
    values.len() == 1 && (values[0] matches ReturnValue::I32(x) && x >= 0)
}

/// Interprets what the entry call returned. Anything but a single
/// non-negative 32-bit integer fails the calling convention.
pub fn parse_entry_return(values: &Vec<ReturnValue>) -> (r: Result<u32, Error>)
    ensures
        match r {
            Ok(p) => conforming_return(values@) && values@[0] == ReturnValue::I32(p as i32),
            Err(e) => !conforming_return(values@) && e.kind == ErrorKind::CallProtocol,
        },
{
    if values.len() == 1 {
        match values[0] {
            ReturnValue::I32(x) if x >= 0 => {
                return Ok(x as u32);
            }
            _ => {}
        }
    }
    Err(Error::new(
        ErrorKind::CallProtocol,
        String::from_str("guest entry point did not return one pointer-sized value"),
    ))
}

} // verus!
