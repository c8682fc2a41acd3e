use cloud::engine::Engine;
use cloud::error::ErrorKind;
use cloud::value::Value;

#[test]
fn cache_key_is_a_deterministic_hex_digest() {
    let a = Engine::cache_key(b"first module bytes");
    let b = Engine::cache_key(b"first module bytes");
    assert_eq!(a, b);
    assert_eq!(a.len(), 64);
    assert!(a.chars().all(|ch| ch.is_ascii_hexdigit()));
}

#[test]
fn cache_key_distinguishes_contents() {
    let a = Engine::cache_key(b"first module bytes");
    let c = Engine::cache_key(b"other module bytes");
    assert_ne!(a, c);
    let empty = Engine::cache_key(b"");
    assert_eq!(empty.len(), 64);
    assert_ne!(a, empty);
}

#[test]
fn cache_key_matches_the_runtime_cache_digest() {
    // The digest the engine computes is the very one the persistence
    // layer files artifacts under.
    let ours = Engine::cache_key(b"some module");
    let theirs = wasmer_cache::Hash::generate(b"some module").to_string();
    assert_eq!(ours, theirs);
}

#[test]
fn output_interpretation_decodes_and_unwraps() {
    // A bare value passes through; an Ok envelope unwraps; an Err
    // envelope surfaces as a guest-reported failure; garbage is a
    // serialization error.
    assert_eq!(Engine::interpret_output(&vec![0x2a]).unwrap(), Value::Int(42));
    // {"Ok": 7}
    assert_eq!(
        Engine::interpret_output(&vec![0x81, 0xa2, b'O', b'k', 0x07]).unwrap(),
        Value::Int(7)
    );
    // {"Err": {"description": "boom"}}
    let mut wire = vec![0x81, 0xa3, b'E', b'r', b'r', 0x81, 0xab];
    wire.extend_from_slice(b"description");
    wire.push(0xa4);
    wire.extend_from_slice(b"boom");
    let e = Engine::interpret_output(&wire).unwrap_err();
    assert_eq!(e.kind(), ErrorKind::GuestReported);
    assert_eq!(e.message().as_str(), "boom");
    let e = Engine::interpret_output(&vec![0xc1]).unwrap_err();
    assert_eq!(e.kind(), ErrorKind::Serialization);
}
