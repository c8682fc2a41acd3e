use vstd::prelude::*;
use vstd::bytes::{spec_u32_to_le_bytes, spec_u32_from_le_bytes, u32_from_le_bytes, lemma_auto_spec_u32_to_from_le_bytes};
use crate::codec::{encode, decode, decoded, encoding, encoding_entry, encoding_entries, str_encoding, encodable, int_encoding, lemma_round_trip};
use crate::error::{Error, ErrorKind};
use crate::memory::GuestMemory;
use crate::protocol::{build_input_buffer, compute_pages, compute_pages_for, pages_needed, record_of, OutputRecord, WASM_PAGE_SIZE, DEFAULT_HEAP_BASE};
use crate::value::{Value, ValueView, lookup};
use crate::envelope::{unwrap_spec, err_description};
use vstd::utf8::encode_utf8;

verus! {

// The guest side of the calling protocol, written out against the linear
// memory model: what a conformant guest entry point must do with the input
// buffer the host wrote, and how it must leave its output behind. Driving
// the host steps and this stub over one memory shows the two sides of the
// protocol agree byte for byte.

/// The input payload a conformant guest reads at `ptr`: the four-byte
/// little-endian length there, then that many payload bytes.
pub open spec fn guest_input_at(mem: Seq<u8>, ptr: int) -> Seq<u8>
    recommends
        ptr + 4 <= mem.len(),
{
    let len = spec_u32_from_le_bytes(mem.subrange(ptr, ptr + 4)) as int;
    mem.subrange(ptr + 4, ptr + 4 + len)
}

/// Whether the input buffer at `ptr` lies whole inside memory.
pub open spec fn input_read_fits(mem: Seq<u8>, ptr: int) -> bool {
    let len = spec_u32_from_le_bytes(mem.subrange(ptr, ptr + 4)) as int;
    &&& ptr + 4 <= mem.len()
    &&& len + 4 <= usize::MAX
    &&& ptr + 4 + len <= mem.len()
}

/// Whether memory can be grown for the input buffer at the heap base:
/// the payload fits its header, and the pages that place the buffer at
/// `heap_base` fit the page argument and the address range.
pub open spec fn input_write_fits(mem_len: nat, heap_base: u32, payload: Seq<u8>) -> bool {
    let pages = pages_needed((heap_base + payload.len() + 4) as nat);
    &&& payload.len() <= u32::MAX
    &&& pages <= u32::MAX
    &&& mem_len + pages * WASM_PAGE_SIZE <= usize::MAX
}

/// Whether output bytes of `out_len` and their record land inside grown
/// memory of `mem_len` bytes, at addresses a 32-bit return can carry.
pub open spec fn output_write_fits(mem_len: nat, out_len: nat) -> bool {
    &&& out_len <= u32::MAX
    &&& mem_len <= i32::MAX
    &&& pages_needed(out_len + 8) <= u32::MAX
    &&& mem_len + pages_needed(out_len + 8) * WASM_PAGE_SIZE <= usize::MAX
    &&& mem_len + out_len <= i32::MAX - 8
}

/// Whether the record at `rp` and the output bytes it names lie whole
/// inside memory.
pub open spec fn output_read_fits(mem: Seq<u8>, rp: int) -> bool {
    let rec = record_of(mem.subrange(rp, rp + 8));
    &&& rp + 8 <= mem.len()
    &&& rec.ptr + rec.len <= mem.len()
}

/// A freshly written input buffer reads back: the length header at the
/// heap base names the payload that follows it.
proof fn lemma_input_buffer_readable(mem: Seq<u8>, hb: u32, payload: Seq<u8>)
    requires
        payload.len() <= u32::MAX,
        payload.len() + 4 <= usize::MAX,
        mem.subrange(hb as int, hb + 4) == spec_u32_to_le_bytes(payload.len() as u32),
        mem.subrange(hb + 4, hb + 4 + payload.len()) == payload,
        hb + 4 + payload.len() <= mem.len(),
    ensures
        input_read_fits(mem, hb as int),
        guest_input_at(mem, hb as int) == payload,
{
    lemma_auto_spec_u32_to_from_le_bytes();
    assert(spec_u32_to_le_bytes(payload.len() as u32).len() == 4);
    assert(spec_u32_from_le_bytes(spec_u32_to_le_bytes(payload.len() as u32))
        == payload.len() as u32);
    assert(spec_u32_from_le_bytes(mem.subrange(hb as int, hb + 4)) == payload.len());
}

/// Reads the input buffer at `ptr` exactly as the host wrote it: length
/// header first, then the payload.
pub fn stub_read_input(mem: &GuestMemory, ptr: usize) -> (r: Result<Vec<u8>, Error>)
    ensures
        r is Ok <==> input_read_fits(mem@, ptr as int),
        r matches Ok(p) ==> p@ == guest_input_at(mem@, ptr as int),
        r matches Err(e) ==> e.kind == ErrorKind::Instantiation,
{
    proof {
        mem.lemma_size_bound();
    }
    let header = mem.read_at(ptr, 4)?;
    let len = u32_from_le_bytes(header.as_slice());
    if len as usize > usize::MAX - 4 {
        return Err(Error::new(
            ErrorKind::Instantiation,
            String::from_str("input length header beyond the address range"),
        ));
    }
    let payload = mem.read_at(ptr + 4, len as usize)?;
    Ok(payload)
}

/// Leaves `bytes` in guest memory the way the host will look for them:
/// grows fresh pages, lays the bytes down, writes the eight-byte output
/// record after them, and returns the record's address. Existing memory
/// below the old size is untouched.
#[verifier::loop_isolation(false)]
pub fn stub_write_output(mem: &mut GuestMemory, bytes: &Vec<u8>) -> (r: Result<usize, Error>)
    ensures
        r is Ok <==> output_write_fits(old(mem)@.len(), bytes@.len()),
        r matches Ok(rp) ==> rp + 8 <= final(mem)@.len() && rp >= bytes@.len() && rp <= i32::MAX
            && record_of(final(mem)@.subrange(rp as int, rp + 8)) == (OutputRecord {
            len: bytes@.len() as u32,
            ptr: (rp - bytes@.len()) as u32,
        }) && final(mem)@.subrange(rp - bytes@.len(), rp as int) == bytes@,
        final(mem)@.len() >= old(mem)@.len() && final(mem)@.subrange(0, old(mem)@.len() as int)
            == old(mem)@,
        r matches Err(e) ==> e.kind == ErrorKind::Instantiation || e.kind
            == ErrorKind::Serialization,
{
    proof {
        assert(mem@.subrange(0, mem@.len() as int) =~= mem@);
    }
    if bytes.len() > u32::MAX as usize || bytes.len() > usize::MAX - 8 {
        return Err(Error::new(
            ErrorKind::Serialization,
            String::from_str("output does not fit a 4-byte length header"),
        ));
    }
    let base = mem.size();
    if base > i32::MAX as usize - 8 {
        return Err(Error::new(
            ErrorKind::Instantiation,
            String::from_str("guest memory already beyond the pointer range"),
        ));
    }
    let need = bytes.len() + 8;
    let pages = compute_pages(need)?;
    proof {
        vstd::arithmetic::div_mod::lemma_fundamental_div_mod(need as int, WASM_PAGE_SIZE as int);
    }
    mem.grow_pages(pages)?;
    if bytes.len() > i32::MAX as usize - 8 - base {
        proof {
            assert(mem@.subrange(0, old(mem)@.len() as int) =~= old(mem)@);
        }
        return Err(Error::new(
            ErrorKind::Instantiation,
            String::from_str("output record beyond the pointer range"),
        ));
    }
    let write1 = mem.write_at(base, bytes);
    proof {
        assert(write1 is Ok);
    }
    if write1.is_err() {
        return Err(Error::new(
            ErrorKind::Instantiation,
            String::from_str("write beyond the end of guest memory"),
        ));
    }
    let rp = base + bytes.len();
    let record = crate::protocol::make_record_bytes(bytes.len() as u32, base as u32);
    let write2 = mem.write_at(rp, &record);
    proof {
        assert(write2 is Ok);
    }
    if write2.is_err() {
        return Err(Error::new(
            ErrorKind::Instantiation,
            String::from_str("write beyond the end of guest memory"),
        ));
    }
    proof {
        lemma_auto_spec_u32_to_from_le_bytes();
        assert(mem@.subrange(rp as int, rp + 8) =~= record@);
        assert(record@.subrange(0, 4) =~= spec_u32_to_le_bytes(bytes@.len() as u32));
        assert(record@.subrange(4, 8) =~= spec_u32_to_le_bytes(base as u32));
        assert(mem@.subrange(rp - bytes@.len(), rp as int) =~= bytes@);
        assert(mem@.subrange(0, old(mem)@.len() as int) =~= old(mem)@);
    }
    Ok(rp)
}

/// The host's write of the input buffer — the serialize, grow and write
/// steps of a call — against the memory model: afterwards the four bytes
/// at the heap base hold the payload length, little-endian, and the
/// payload follows them unchanged.
#[verifier::loop_isolation(false)]
pub fn host_write_input(mem: &mut GuestMemory, heap_base: u32, payload: &Vec<u8>) -> (r: Result<
    (),
    Error,
>)
    ensures
        r is Ok <==> input_write_fits(old(mem)@.len(), heap_base, payload@),
        r is Ok ==> final(mem)@.len() == old(mem)@.len() + pages_needed(
            (heap_base + payload@.len() + 4) as nat,
        ) * WASM_PAGE_SIZE,
        r is Ok ==> heap_base + 4 + payload@.len() <= final(mem)@.len() && final(mem)@.subrange(
            heap_base as int,
            heap_base + 4,
        ) == spec_u32_to_le_bytes(payload@.len() as u32) && final(mem)@.subrange(
            heap_base + 4,
            heap_base + 4 + payload@.len(),
        ) == payload@,
        final(mem)@.len() >= old(mem)@.len(),
        r matches Err(e) ==> e.kind == ErrorKind::Serialization || e.kind
            == ErrorKind::Instantiation,
{
    let buf = build_input_buffer(payload)?;
    proof {
        lemma_auto_spec_u32_to_from_le_bytes();
        assert(buf@.len() == payload@.len() + 4);
    }
    let pages = compute_pages_for(heap_base, buf.len())?;
    mem.grow_pages(pages)?;
    mem.write_at(heap_base as usize, &buf)?;
    proof {
        lemma_auto_spec_u32_to_from_le_bytes();
        assert(mem@.subrange(heap_base as int, heap_base + 4) =~= spec_u32_to_le_bytes(
            payload@.len() as u32,
        ));
        assert(mem@.subrange(heap_base + 4, heap_base + 4 + payload@.len()) =~= payload@);
    }
    Ok(())
}

/// The host's read of the guest's result — the record and payload reads
/// of a call: the record at `rp` names where the output bytes lie, and
/// they come back exactly.
pub fn host_read_output(mem: &GuestMemory, rp: usize) -> (r: Result<Vec<u8>, Error>)
    ensures
        r is Ok <==> output_read_fits(mem@, rp as int),
        r matches Ok(b) ==> {
            let rec = record_of(mem@.subrange(rp as int, rp + 8));
            b@ == mem@.subrange(rec.ptr as int, rec.ptr + rec.len)
        },
        r matches Err(e) ==> e.kind == ErrorKind::Instantiation,
{
    let raw = mem.read_at(rp, 8)?;
    let rec = match crate::protocol::parse_output_record(&raw) {
        Ok(rec) => rec,
        Err(_) => {
            proof {
                assert(false);
            }
            return Err(Error::new(ErrorKind::Instantiation, String::new()));
        },
    };
    let out = mem.read_at(rec.ptr as usize, rec.len as usize)?;
    Ok(out)
}

/// One whole invocation against the memory model, with a guest stub whose
/// user function is the identity: the host writes the encoded input, the
/// stub decodes it and encodes it back, and the host reads and decodes
/// the result. Whatever comes back equals the input; a value the format
/// cannot carry is rejected before anything runs, and any value up to
/// sixteen million encoded bytes always goes through (larger ones only
/// meet machine limits; the bound is a convenience of the proof). The
/// result is returned as decoded, before envelope unwrapping, so the
/// statement covers inputs that are themselves envelope-shaped; a real
/// call unwraps afterwards, as the add-one simulation shows.
#[verifier::rlimit(60)]
pub fn simulate_echo_call(input: &Value) -> (r: Result<Value, Error>)
    ensures
        r matches Ok(v) ==> v@ == input@,
        !encodable(input@) ==> (r matches Err(e) && e.kind == ErrorKind::Serialization),
        encodable(input@) && encoding(input@).len() <= 0xffffff ==> r is Ok,
{
    let ghost small = encodable(input@) && encoding(input@).len() <= 0xffffff;
    let payload = encode(input)?;
    proof {
        lemma_round_trip(input@);
        lemma_auto_spec_u32_to_from_le_bytes();
    }
    let mut mem = GuestMemory::new();
    proof {
        vstd::arithmetic::div_mod::lemma_fundamental_div_mod(
            (DEFAULT_HEAP_BASE + payload@.len() + 4) as int,
            WASM_PAGE_SIZE as int,
        );
        if small {
            vstd::arithmetic::div_mod::lemma_div_is_ordered(
                (DEFAULT_HEAP_BASE + payload@.len() + 4) as int,
                0x1100003,
                WASM_PAGE_SIZE as int,
            );
            assert(pages_needed((DEFAULT_HEAP_BASE + payload@.len() + 4) as nat) <= 0x111);
            assert(input_write_fits(mem@.len(), DEFAULT_HEAP_BASE, payload@));
        }
    }
    host_write_input(&mut mem, DEFAULT_HEAP_BASE, &payload)?;

    // The guest stub's turn, handed only the heap-base pointer.
    proof {
        assert(payload@.len() + 4 <= usize::MAX);
        lemma_input_buffer_readable(mem@, DEFAULT_HEAP_BASE, payload@);
    }
    let input_back = stub_read_input(&mem, DEFAULT_HEAP_BASE as usize)?;
    proof {
        assert(input_back@ == payload@);
    }
    let decoded_value = decode(&input_back)?;
    proof {
        assert(decoded_value@ == input@);
    }
    let reencoded = encode(&decoded_value)?;
    proof {
        vstd::arithmetic::div_mod::lemma_fundamental_div_mod(
            (reencoded@.len() + 8) as int,
            WASM_PAGE_SIZE as int,
        );
        if small {
            assert(mem@.len() <= 0x1120000);
            vstd::arithmetic::div_mod::lemma_div_is_ordered(
                (reencoded@.len() + 8) as int,
                0x1000007,
                WASM_PAGE_SIZE as int,
            );
            assert(pages_needed(reencoded@.len() + 8) <= 0x101);
            assert(output_write_fits(mem@.len(), reencoded@.len()));
        }
    }
    let rp = stub_write_output(&mut mem, &reencoded)?;

    // Back on the host side: locate, read and decode the output.
    proof {
        assert(output_read_fits(mem@, rp as int));
    }
    let out_bytes = host_read_output(&mem, rp)?;
    proof {
        assert(out_bytes@ == reencoded@);
        assert(out_bytes@ == encoding(input@));
    }
    let v = decode(&out_bytes)?;
    Ok(v)
}

proof fn lemma_int_encoding_len(i: int)
    ensures
        1 <= int_encoding(i).len() <= 9,
{
}

proof fn lemma_encode_utf8_len(s: Seq<char>)
    ensures
        encode_utf8(s).len() <= 4 * s.len(),
    decreases s.len(),
{
    if s.len() > 0 {
        lemma_encode_utf8_len(s.drop_first());
    }
}

/// The envelope a guest reports through when it cannot make sense of its
/// input.
pub open spec fn bad_input_view() -> ValueView {
    ValueView::Object(
        seq![("Err"@, ValueView::Object(seq![("description"@, ValueView::Str("bad input"@))]))],
    )
}

/// What the add-one user function replies to a decoded input: the successor
/// wrapped in an `Ok` envelope for a number with headroom, the `bad input`
/// failure envelope for everything else.
pub open spec fn add_one_reply(v: ValueView) -> ValueView {
    match v {
        ValueView::Int(n) => if i64::MIN <= n < i64::MAX {
            ValueView::Object(seq![("Ok"@, ValueView::Int(n + 1))])
        } else {
            bad_input_view()
        },
        _ => bad_input_view(),
    }
}

/// The adapted entry point of the add-one guest, handed only the pointer
/// the host passed: it reads the input buffer, decodes it, applies the
/// user function, encodes the enveloped reply, and leaves it behind with
/// its record, returning the record's address. Memory below the old size
/// is untouched, so the host's input buffer survives the call.
#[verifier::loop_isolation(false)]
#[verifier::rlimit(100)]
pub fn stub_add_one_entry(mem: &mut GuestMemory, ptr: usize) -> (r: Result<usize, Error>)
    ensures
        final(mem)@.len() >= old(mem)@.len() && final(mem)@.subrange(0, old(mem)@.len() as int)
            == old(mem)@,
        r matches Ok(rp) ==> input_read_fits(old(mem)@, ptr as int) && ({
            let payload = guest_input_at(old(mem)@, ptr as int);
            &&& decoded(payload) is Some
            &&& output_read_fits(final(mem)@, rp as int)
            &&& {
                let rec = record_of(final(mem)@.subrange(rp as int, rp + 8));
                final(mem)@.subrange(rec.ptr as int, rec.ptr + rec.len) == encoding(
                    add_one_reply(decoded(payload).unwrap()),
                )
            }
        }),
        input_read_fits(old(mem)@, ptr as int) && decoded(guest_input_at(old(mem)@, ptr as int))
            is Some && old(mem)@.len() <= 0x7ffff000 ==> r is Ok,
        r matches Err(e) ==> e.kind == ErrorKind::Instantiation || e.kind
            == ErrorKind::Serialization,
{
    let input_back = stub_read_input(mem, ptr)?;
    let decoded_value = decode(&input_back)?;
    let reply: Value = match decoded_value {
        Value::Int(n) => {
            if n < i64::MAX {
                ok_reply(n)
            } else {
                bad_input_reply()
            }
        },
        _ => bad_input_reply(),
    };
    proof {
        assert(reply@ == add_one_reply(decoded(input_back@).unwrap()));
        lemma_reply_encodable(decoded(input_back@).unwrap());
    }
    let reencoded = encode(&reply)?;
    proof {
        mem.lemma_size_bound();
        vstd::arithmetic::div_mod::lemma_fundamental_div_mod(
            (reencoded@.len() + 8) as int,
            WASM_PAGE_SIZE as int,
        );
        if mem@.len() <= 0x7ffff000 {
            assert(output_write_fits(mem@.len(), reencoded@.len()));
        }
    }
    let rp = stub_write_output(mem, &reencoded)?;
    proof {
        assert(output_read_fits(mem@, rp as int));
    }
    Ok(rp)
}

/// One whole invocation against the memory model, with a guest stub whose
/// user function decodes a number, adds one, and wraps the sum in an `Ok`
/// envelope — or reports `bad input` through an `Err` envelope for
/// anything that is not a number with headroom. The host unwraps the
/// envelope as a real call does: a number always comes back one greater,
/// and a guest-reported failure always carries `bad input`.
#[verifier::loop_isolation(false)]
#[verifier::rlimit(100)]
pub fn simulate_add_one_call(input: &Value) -> (r: Result<Value, Error>)
    ensures
        !encodable(input@) ==> (r matches Err(e) && e.kind == ErrorKind::Serialization),
        r matches Ok(v) ==> (input@ matches ValueView::Int(n) && n < i64::MAX && v@
            == ValueView::Int(n + 1)),
        input@ matches ValueView::Int(n) ==> (n < i64::MAX ==> (r matches Ok(v) && v@
            == ValueView::Int(n + 1))),
        input@ matches ValueView::Int(n) ==> (n >= i64::MAX ==> (r matches Err(e) && e.kind
            == ErrorKind::GuestReported && e.description@ == "bad input"@)),
        encodable(input@) && encoding(input@).len() <= 0xffff && input@ !is Int ==> (r matches Err(
            e,
        ) && e.kind == ErrorKind::GuestReported && e.description@ == "bad input"@),
        r matches Err(e) ==> (e.kind == ErrorKind::GuestReported ==> e.description@
            == "bad input"@),
{
    let ghost small = encodable(input@) && encoding(input@).len() <= 0xffff;
    let payload = encode(input)?;
    proof {
        lemma_round_trip(input@);
        lemma_auto_spec_u32_to_from_le_bytes();
        match input@ {
            ValueView::Int(n) => lemma_int_encoding_len(n),
            _ => (),
        }
    }
    let mut mem = GuestMemory::new();
    proof {
        vstd::arithmetic::div_mod::lemma_fundamental_div_mod(
            (DEFAULT_HEAP_BASE + payload@.len() + 4) as int,
            WASM_PAGE_SIZE as int,
        );
        if small {
            vstd::arithmetic::div_mod::lemma_div_is_ordered(
                (DEFAULT_HEAP_BASE + payload@.len() + 4) as int,
                0x110003,
                WASM_PAGE_SIZE as int,
            );
            assert(pages_needed((DEFAULT_HEAP_BASE + payload@.len() + 4) as nat) <= 0x12);
            assert(input_write_fits(mem@.len(), DEFAULT_HEAP_BASE, payload@));
        }
    }
    host_write_input(&mut mem, DEFAULT_HEAP_BASE, &payload)?;

    // The guest stub's turn, handed only the heap-base pointer.
    proof {
        assert(payload@.len() + 4 <= usize::MAX);
        lemma_input_buffer_readable(mem@, DEFAULT_HEAP_BASE, payload@);
        assert(decoded(payload@) == Option::Some(input@));
        if small {
            assert(mem@.len() <= 0x120000);
        }
        match *input {
            Value::Int(i) => {
                assert(input@ == ValueView::Int(i as int));
                assert(encodable(input@));
                assert(small);
                assert(mem@.len() <= 0x7ffff000);
            },
            _ => {
                assert(!(input@ matches ValueView::Int(n)));
            },
        }
    }
    let rp = stub_add_one_entry(&mut mem, DEFAULT_HEAP_BASE as usize)?;

    // Back on the host side: locate, read, decode — and this time unwrap
    // the envelope, as a real call does.
    let out_bytes = host_read_output(&mem, rp)?;
    proof {
        assert(out_bytes@ == encoding(add_one_reply(input@)));
        lemma_reply_encodable(input@);
        lemma_round_trip(add_one_reply(input@));
    }
    let replied = decode(&out_bytes)?;
    proof {
        assert(replied@ == add_one_reply(input@));
        reveal_strlit("Ok");
        reveal_strlit("Err");
        reveal_strlit("description");
        reveal_strlit("bad input");
        lemma_unwrap_bad_view();
        match input@ {
            ValueView::Int(n) => {
                if i64::MIN <= n < i64::MAX {
                    let es = seq![("Ok"@, ValueView::Int(n + 1))];
                    assert(replied@ == ValueView::Object(es));
                    assert(es.drop_first() =~= Seq::<(Seq<char>, ValueView)>::empty());
                    assert("Ok"@.len() == 2 && "Err"@.len() == 3);
                    assert("Ok"@ != "Err"@);
                    assert(es[0].0 == "Ok"@);
                    assert(lookup(es.drop_first(), "Err"@) is None);
                    assert(lookup(es, "Err"@) is None);
                    assert(lookup(es, "Ok"@) == Option::Some(ValueView::Int(n + 1)));
                    assert(unwrap_spec(replied@) == Result::<ValueView, Seq<char>>::Ok(
                        ValueView::Int(n + 1),
                    ));
                }
            },
            _ => (),
        }
    }
    crate::envelope::unwrap_output(replied)
}

/// The failure envelope is encodable and small.
proof fn lemma_bad_view_encodable()
    ensures
        encodable(bad_input_view()),
        encoding(bad_input_view()).len() <= 256,
{
    reveal_strlit("Err");
    reveal_strlit("description");
    reveal_strlit("bad input");
    lemma_encode_utf8_len("Err"@);
    lemma_encode_utf8_len("description"@);
    lemma_encode_utf8_len("bad input"@);
    let es2 = seq![("description"@, ValueView::Str("bad input"@))];
    assert(es2.drop_first() =~= Seq::<(Seq<char>, ValueView)>::empty());
    assert(encoding_entries(es2) == encoding_entry(es2[0]) + encoding_entries(es2.drop_first()));
    assert(str_encoding("description"@).len() <= 46);
    assert(encoding(es2[0].1) == str_encoding("bad input"@));
    assert(str_encoding("bad input"@).len() <= 38);
    assert forall|i: int| 0 <= i < es2.len() implies encode_utf8((#[trigger] es2[i]).0).len()
        <= u32::MAX && encodable(es2[i].1) by {
        assert(es2[i] == es2[0]);
    }
    let inner_view = ValueView::Object(es2);
    assert(encodable(inner_view));
    assert(encoding(inner_view).len() <= 128);
    let es = seq![("Err"@, inner_view)];
    assert(es.drop_first() =~= Seq::<(Seq<char>, ValueView)>::empty());
    assert(encoding_entries(es) == encoding_entry(es[0]) + encoding_entries(es.drop_first()));
    assert(str_encoding("Err"@).len() <= 46);
    assert forall|i: int| 0 <= i < es.len() implies encode_utf8((#[trigger] es[i]).0).len()
        <= u32::MAX && encodable(es[i].1) by {
        assert(es[i] == es[0]);
    }
    assert(encodable(bad_input_view()));
    assert(encoding(bad_input_view()).len() <= 256);
}

/// Unwrapping the failure envelope yields exactly the guest's description.
proof fn lemma_unwrap_bad_view()
    ensures
        unwrap_spec(bad_input_view()) == Result::<ValueView, Seq<char>>::Err("bad input"@),
{
    reveal_strlit("Ok");
    reveal_strlit("Err");
    reveal_strlit("description");
    reveal_strlit("bad input");
    let inner = ValueView::Object(seq![("description"@, ValueView::Str("bad input"@))]);
    let es = seq![("Err"@, inner)];
    assert(es.drop_first() =~= Seq::<(Seq<char>, ValueView)>::empty());
    assert(lookup(es, "Err"@) == Option::Some(inner));
    let es2 = seq![("description"@, ValueView::Str("bad input"@))];
    assert(es2.drop_first() =~= Seq::<(Seq<char>, ValueView)>::empty());
    assert(lookup(es2, "description"@) == Option::Some(ValueView::Str("bad input"@)));
    assert(err_description(inner) == "bad input"@);
}

/// The reply envelope of the add-one guest is always encodable and small.
proof fn lemma_reply_encodable(v: ValueView)
    ensures
        encodable(add_one_reply(v)),
        encoding(add_one_reply(v)).len() <= 256,
{
    lemma_bad_view_encodable();
    match v {
        ValueView::Int(n) => {
            if i64::MIN <= n < i64::MAX {
                reveal_strlit("Ok");
                lemma_encode_utf8_len("Ok"@);
                lemma_int_encoding_len(n + 1);
                let es = seq![("Ok"@, ValueView::Int(n + 1))];
                assert(add_one_reply(v) == ValueView::Object(es));
                assert(es.drop_first() =~= Seq::<(Seq<char>, ValueView)>::empty());
                assert(encoding_entries(es) == encoding_entry(es[0]) + encoding_entries(
                    es.drop_first(),
                ));
                assert(str_encoding("Ok"@).len() <= 46);
                assert forall|i: int| 0 <= i < es.len() implies encode_utf8(
                    (#[trigger] es[i]).0,
                ).len() <= u32::MAX && encodable(es[i].1) by {
                    assert(es[i] == ("Ok"@, ValueView::Int(n + 1)));
                }
                assert(encodable(ValueView::Object(es)));
                assert(encoding(ValueView::Object(es)).len() <= 256);
            }
        },
        _ => (),
    }
}

/// The reply of a guest that adds one to the number it was handed.
fn ok_reply(n: i64) -> (r: Value)
    requires
        n < i64::MAX,
    ensures
        r@ == ValueView::Object(seq![("Ok"@, ValueView::Int(n + 1))]),
{
    let entries = vec![(String::from_str("Ok"), Value::Int(n + 1))];
    proof {
        crate::value::lemma_entries_view_index(entries@);
        assert(crate::value::entries_view(entries@) =~= seq![("Ok"@, ValueView::Int(n + 1))]);
    }
    Value::Object(entries)
}

/// The reply of a guest that cannot make sense of its input.
fn bad_input_reply() -> (r: Value)
    ensures
        r@ == bad_input_view(),
{
    let ghost inner_view = ValueView::Object(
        seq![("description"@, ValueView::Str("bad input"@))],
    );
    let desc_entries = vec![
        (String::from_str("description"), Value::Str(String::from_str("bad input"))),
    ];
    proof {
        crate::value::lemma_entries_view_index(desc_entries@);
        assert(crate::value::entries_view(desc_entries@) =~= seq![
            ("description"@, ValueView::Str("bad input"@)),
        ]);
    }
    let inner = Value::Object(desc_entries);
    let outer = vec![(String::from_str("Err"), inner)];
    proof {
        crate::value::lemma_entries_view_index(outer@);
        assert(crate::value::entries_view(outer@) =~= seq![("Err"@, inner_view)]);
    }
    Value::Object(outer)
}

} // verus!
