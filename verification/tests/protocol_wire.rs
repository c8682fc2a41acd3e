use cloud::error::ErrorKind;
use cloud::memory::GuestMemory;
use cloud::protocol::{
    build_input_buffer, compute_pages, compute_pages_for, make_record_bytes, parse_entry_return,
    parse_output_record, select_heap_base, OutputRecord, ReturnValue, DEFAULT_HEAP_BASE,
    WASM_PAGE_SIZE,
};
use cloud::stub::{host_read_output, host_write_input, simulate_add_one_call, simulate_echo_call, stub_read_input, stub_write_output};
use cloud::value::Value;

#[test]
fn input_buffer_is_length_header_then_payload() {
    let buf = build_input_buffer(&vec![0xaa, 0xbb, 0xcc]).unwrap();
    assert_eq!(buf, vec![3, 0, 0, 0, 0xaa, 0xbb, 0xcc]);
    assert_eq!(build_input_buffer(&Vec::new()).unwrap(), vec![0, 0, 0, 0]);
}

#[test]
fn page_count_covers_the_buffer() {
    assert_eq!(compute_pages(0).unwrap(), 1);
    assert_eq!(compute_pages(WASM_PAGE_SIZE - 1).unwrap(), 1);
    assert_eq!(compute_pages(WASM_PAGE_SIZE).unwrap(), 2);
    assert_eq!(compute_pages(3 * WASM_PAGE_SIZE + 5).unwrap(), 4);
}

#[test]
fn heap_base_prefers_the_exported_global() {
    assert_eq!(select_heap_base(Some(4096)), 4096);
    assert_eq!(select_heap_base(Some(0)), 0);
    assert_eq!(select_heap_base(None), DEFAULT_HEAP_BASE);
    // The global is read as an unsigned offset: a value past 2^31 comes
    // through as it is and fails loudly downstream if out of bounds.
    assert_eq!(select_heap_base(Some(-1)), u32::MAX);
    assert_eq!(select_heap_base(Some(i32::MIN)), 0x80000000);
}

#[test]
fn page_count_covers_the_buffer_at_the_heap_base() {
    // Growing by this many pages puts the end of the buffer inside
    // memory wherever it already stood.
    let p = compute_pages_for(DEFAULT_HEAP_BASE, 3).unwrap();
    assert_eq!(p as usize * WASM_PAGE_SIZE > DEFAULT_HEAP_BASE as usize + 3, true);
    assert_eq!(p, 17);
    assert_eq!(compute_pages_for(0, 0).unwrap(), 1);
    assert_eq!(compute_pages_for(0, WASM_PAGE_SIZE).unwrap(), 2);
    assert_eq!(compute_pages_for(u32::MAX, 100).unwrap(), 65537);
}

#[test]
fn output_record_reads_length_then_pointer() {
    let rec = parse_output_record(&vec![5, 0, 0, 0, 0x20, 0, 0, 0]).unwrap();
    assert_eq!(rec, OutputRecord { len: 5, ptr: 0x20 });
    let rec2 = parse_output_record(&make_record_bytes(300, 70000)).unwrap();
    assert_eq!(rec2, OutputRecord { len: 300, ptr: 70000 });
    let e = parse_output_record(&vec![1, 2, 3]).unwrap_err();
    assert_eq!(e.kind(), ErrorKind::CallProtocol);
}

#[test]
fn entry_return_must_be_one_nonnegative_i32() {
    assert_eq!(parse_entry_return(&vec![ReturnValue::I32(64)]).unwrap(), 64);
    let wrong: Vec<Vec<ReturnValue>> = vec![
        vec![],
        vec![ReturnValue::I32(1), ReturnValue::I32(2)],
        vec![ReturnValue::Other],
        vec![ReturnValue::I32(-4)],
    ];
    for values in wrong {
        let e = parse_entry_return(&values).unwrap_err();
        assert_eq!(e.kind(), ErrorKind::CallProtocol);
    }
}

#[test]
fn memory_is_bounds_checked() {
    let mut mem = GuestMemory::new();
    assert_eq!(mem.size(), 0);
    mem.grow_pages(1).unwrap();
    assert_eq!(mem.size(), WASM_PAGE_SIZE);
    mem.write_at(10, &vec![1, 2, 3]).unwrap();
    assert_eq!(mem.read_at(9, 5).unwrap(), vec![0, 1, 2, 3, 0]);
    let e = mem.read_at(WASM_PAGE_SIZE - 1, 2).unwrap_err();
    assert_eq!(e.kind(), ErrorKind::Instantiation);
    let e = mem.write_at(WASM_PAGE_SIZE, &vec![9]).unwrap_err();
    assert_eq!(e.kind(), ErrorKind::Instantiation);
}

#[test]
fn written_input_reads_back_as_header_then_payload() {
    // The memory-layout invariant: after the host's write, the four bytes
    // at the heap base are the little-endian payload length and the
    // payload follows exactly.
    let mut mem = GuestMemory::new();
    mem.grow_pages((DEFAULT_HEAP_BASE as usize / WASM_PAGE_SIZE) as u32).unwrap();
    let payload = vec![0x2a, 0x07, 0xff];
    host_write_input(&mut mem, DEFAULT_HEAP_BASE, &payload).unwrap();
    let hb = DEFAULT_HEAP_BASE as usize;
    assert_eq!(mem.read_at(hb, 4).unwrap(), vec![3, 0, 0, 0]);
    assert_eq!(mem.read_at(hb + 4, 3).unwrap(), payload);
    let back = stub_read_input(&mem, hb).unwrap();
    assert_eq!(back, payload);
}

#[test]
fn stub_output_is_found_where_the_record_points() {
    let mut mem = GuestMemory::new();
    mem.grow_pages(1).unwrap();
    let out = vec![9, 8, 7, 6];
    let rp = stub_write_output(&mut mem, &out).unwrap();
    assert_eq!(host_read_output(&mem, rp).unwrap(), out);
}

#[test]
fn echo_simulation_returns_the_input() {
    let values = vec![
        Value::Null,
        Value::Int(43),
        Value::Int(-100000),
        Value::Str("héllo".to_string()),
        Value::Arr(vec![Value::Bool(true), Value::Int(300)]),
        Value::Object(vec![("k".to_string(), Value::Arr(vec![Value::Null]))]),
    ];
    for v in values {
        let out = simulate_echo_call(&v).unwrap();
        assert_eq!(out, v);
    }
}

#[test]
fn add_one_scenario_returns_forty_three() {
    let out = simulate_add_one_call(&Value::Int(42)).unwrap();
    assert_eq!(out, Value::Int(43));
}

#[test]
fn add_one_scenario_reports_bad_input() {
    let e = simulate_add_one_call(&Value::Str("not a number".to_string())).unwrap_err();
    assert_eq!(e.kind(), ErrorKind::GuestReported);
    assert_eq!(e.message().as_str(), "bad input");
}

#[test]
fn add_one_scenario_edges() {
    assert_eq!(simulate_add_one_call(&Value::Int(-10)).unwrap(), Value::Int(-9));
    assert_eq!(simulate_add_one_call(&Value::Int(0)).unwrap(), Value::Int(1));
    let e = simulate_add_one_call(&Value::Int(i64::MAX)).unwrap_err();
    assert_eq!(e.kind(), ErrorKind::GuestReported);
    assert_eq!(e.message().as_str(), "bad input");
}
