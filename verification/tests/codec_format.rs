use cloud::codec::{decode, encode};
use cloud::error::ErrorKind;
use cloud::value::Value;

fn enc(v: &Value) -> Vec<u8> {
    encode(v).unwrap()
}

fn reference(v: &serde_json::Value) -> Vec<u8> {
    rmp_serde::to_vec(v).unwrap()
}

fn round_trips(v: Value) {
    let bytes = enc(&v);
    assert_eq!(decode(&bytes).unwrap(), v);
}

#[test]
fn scalars_match_reference_encoder() {
    assert_eq!(enc(&Value::Null), reference(&serde_json::Value::Null));
    assert_eq!(enc(&Value::Bool(true)), reference(&serde_json::Value::Bool(true)));
    assert_eq!(enc(&Value::Bool(false)), reference(&serde_json::Value::Bool(false)));
}

#[test]
fn integers_match_reference_encoder_at_every_width() {
    let cases: Vec<i64> = vec![
        0,
        1,
        42,
        127,
        128,
        255,
        256,
        65535,
        65536,
        4294967295,
        4294967296,
        i64::MAX,
        -1,
        -32,
        -33,
        -128,
        -129,
        -32768,
        -32769,
        -2147483648,
        -2147483649,
        i64::MIN,
    ];
    for n in cases {
        let mine = enc(&Value::Int(n));
        let theirs = reference(&serde_json::Value::from(n));
        assert_eq!(mine, theirs, "encoding of {n} diverges");
        round_trips(Value::Int(n));
    }
}

#[test]
fn known_integer_bytes() {
    assert_eq!(enc(&Value::Int(42)), vec![0x2a]);
    assert_eq!(enc(&Value::Int(-1)), vec![0xff]);
    assert_eq!(enc(&Value::Int(200)), vec![0xcc, 200]);
    assert_eq!(enc(&Value::Int(-100)), vec![0xd0, 156]);
    assert_eq!(enc(&Value::Int(0x1234)), vec![0xcd, 0x12, 0x34]);
}

#[test]
fn strings_match_reference_encoder() {
    let cases = vec![
        String::new(),
        "a".to_string(),
        "hello".to_string(),
        "0123456789012345678901234567890".to_string(),
        "01234567890123456789012345678901".to_string(),
        "x".repeat(255),
        "x".repeat(256),
        "x".repeat(70000),
        "héllo wörld ★".to_string(),
    ];
    for s in cases {
        let mine = enc(&Value::Str(s.clone()));
        let theirs = reference(&serde_json::Value::String(s.clone()));
        assert_eq!(mine, theirs, "encoding of {s:?} diverges");
        round_trips(Value::Str(s));
    }
}

#[test]
fn arrays_match_reference_encoder() {
    let mine = enc(&Value::Arr(vec![Value::Int(1), Value::Str("two".to_string()), Value::Null]));
    let theirs = reference(&serde_json::Value::Array(vec![
        serde_json::Value::from(1i64),
        serde_json::Value::String("two".to_string()),
        serde_json::Value::Null,
    ]));
    assert_eq!(mine, theirs);

    let long = || -> Vec<Value> { (0..20).map(Value::Int).collect() };
    let long_ref = serde_json::Value::Array((0..20i64).map(serde_json::Value::from).collect());
    assert_eq!(enc(&Value::Arr(long())), reference(&long_ref));
    round_trips(Value::Arr(long()));
    round_trips(Value::Arr(Vec::new()));
}

#[test]
fn maps_match_reference_encoder() {
    let mut obj = serde_json::Map::new();
    obj.insert("alpha".to_string(), serde_json::Value::from(1i64));
    obj.insert("beta".to_string(), serde_json::Value::String("two".to_string()));
    let theirs = reference(&serde_json::Value::Object(obj));
    let mine = enc(&Value::Object(vec![
        ("alpha".to_string(), Value::Int(1)),
        ("beta".to_string(), Value::Str("two".to_string())),
    ]));
    assert_eq!(mine, theirs);

    let big = || -> Vec<(String, Value)> {
        // Zero-padded keys keep the reference map in insertion order.
        (0..20).map(|i| (format!("k{i:02}"), Value::Int(i))).collect()
    };
    let mut big_ref = serde_json::Map::new();
    for i in 0..20 {
        big_ref.insert(format!("k{i:02}"), serde_json::Value::from(i));
    }
    assert_eq!(enc(&Value::Object(big())), reference(&serde_json::Value::Object(big_ref)));
    round_trips(Value::Object(big()));
    round_trips(Value::Object(Vec::new()));
}

#[test]
fn nested_values_round_trip() {
    let v = Value::Object(vec![
        (
            "items".to_string(),
            Value::Arr(vec![
                Value::Object(vec![("id".to_string(), Value::Int(-7))]),
                Value::Str("end".to_string()),
            ]),
        ),
        ("ok".to_string(), Value::Bool(false)),
    ]);
    round_trips(v);
}

#[test]
fn decoder_accepts_wider_integer_forms() {
    // A canonical encoder writes 5 as one byte; the wider forms mean the
    // same value.
    assert_eq!(decode(&vec![0xcc, 5]).unwrap(), Value::Int(5));
    assert_eq!(decode(&vec![0xcd, 0, 5]).unwrap(), Value::Int(5));
    assert_eq!(decode(&vec![0xce, 0, 0, 0, 5]).unwrap(), Value::Int(5));
    assert_eq!(decode(&vec![0xd0, 0xfb]).unwrap(), Value::Int(-5));
    assert_eq!(
        decode(&vec![0xd3, 0xff, 0xff, 0xff, 0xff, 0xff, 0xff, 0xff, 0xfb]).unwrap(),
        Value::Int(-5)
    );
}

#[test]
fn undecodable_bytes_are_serialization_errors() {
    let bad: Vec<Vec<u8>> = vec![
        vec![],
        vec![0xc1],
        vec![0xca, 0, 0, 0, 0],
        vec![0xcb, 0, 0, 0, 0, 0, 0, 0, 0],
        vec![0xc4, 1, 0],
        vec![0xcd, 1],
        vec![0xa3, b'a'],
        vec![0x2a, 0x2a],
        vec![0x91],
        vec![0x81, 0x2a, 0x2a],
        vec![0xa1, 0xff],
        vec![0xcf, 0x80, 0, 0, 0, 0, 0, 0, 0],
    ];
    for bytes in bad {
        let e = decode(&bytes).unwrap_err();
        assert_eq!(e.kind(), ErrorKind::Serialization, "bytes {bytes:?} should not decode");
    }
}

#[test]
fn reference_decoder_reads_our_encodings() {
    let v = Value::Arr(vec![Value::Int(300), Value::Str("ok".to_string())]);
    let theirs: serde_json::Value = rmp_serde::from_slice(&enc(&v)).unwrap();
    let expected = serde_json::Value::Array(vec![
        serde_json::Value::from(300i64),
        serde_json::Value::String("ok".to_string()),
    ]);
    assert_eq!(theirs, expected);
}
