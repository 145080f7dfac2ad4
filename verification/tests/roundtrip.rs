use msgpack::value::{Extension, Integer, Value};
use msgpack::{from_slice, to_vec};

fn roundtrip(v: &Value) -> Value {
    from_slice(&to_vec(v).unwrap()).unwrap()
}

fn sample() -> Value {
    Value::Mapping(vec![
        (Value::String("nil".into()), Value::Nil),
        (Value::String("yes".into()), Value::Boolean(true)),
        (Value::Integer(Integer::U64(7)), Value::Integer(Integer::I64(-7))),
        (
            Value::String("numbers".into()),
            Value::Array(vec![
                Value::Integer(Integer::U64(0)),
                Value::Integer(Integer::U64(127)),
                Value::Integer(Integer::U64(128)),
                Value::Integer(Integer::U64(u64::MAX)),
                Value::Integer(Integer::I64(-1)),
                Value::Integer(Integer::I64(-33)),
                Value::Integer(Integer::I64(i64::MIN)),
                Value::Float(1.5f64.to_bits()),
                Value::Float(f64::NAN.to_bits()),
                Value::Float((-0.0f64).to_bits()),
            ]),
        ),
        (Value::Binary(vec![0, 1, 2, 255]), Value::String("😀".into())),
        (
            Value::Extension(Extension {
                type_id: 5,
                data: vec![1, 2, 3],
            }),
            Value::Extension(Extension {
                type_id: -1,
                data: vec![0, 0, 0, 1],
            }),
        ),
        (Value::Array(vec![]), Value::Mapping(vec![])),
    ])
}

#[test]
fn test_roundtrip_gives_the_value_back() {
    let v = sample();
    assert_eq!(roundtrip(&v), v);
}

#[test]
fn test_roundtrip_of_each_size_class() {
    for len in [0usize, 1, 15, 16, 31, 32, 255, 256, 65_535, 65_536] {
        let s = Value::String("s".repeat(len));
        assert_eq!(roundtrip(&s), s);
        let b = Value::Binary(vec![0x5a; len]);
        assert_eq!(roundtrip(&b), b);
        let a = Value::Array(vec![Value::Nil; len]);
        assert_eq!(roundtrip(&a), a);
        let m = Value::Mapping(vec![(Value::Nil, Value::Boolean(false)); len]);
        assert_eq!(roundtrip(&m), m);
        let e = Value::Extension(Extension {
            type_id: 3,
            data: vec![0xa5; len],
        });
        assert_eq!(roundtrip(&e), e);
    }
}

#[test]
fn test_roundtrip_of_integers_at_the_boundaries() {
    for n in [
        0u64,
        127,
        128,
        255,
        256,
        65_535,
        65_536,
        4_294_967_295,
        4_294_967_296,
        u64::MAX,
    ] {
        let v = Value::Integer(Integer::U64(n));
        assert_eq!(roundtrip(&v), v);
    }
    for n in [
        -1i64,
        -32,
        -33,
        -128,
        -129,
        -32_768,
        -32_769,
        -2_147_483_648,
        -2_147_483_649,
        i64::MIN,
    ] {
        let v = Value::Integer(Integer::I64(n));
        assert_eq!(roundtrip(&v), v);
    }
}

#[test]
fn test_roundtrip_of_a_signed_number_that_is_not_negative_is_unsigned() {
    // Such a number is written under an unsigned tag, and the tag decides.
    for n in [0i64, 5, 127, 128, 65_536, i64::MAX] {
        assert_eq!(
            roundtrip(&Value::Integer(Integer::I64(n))),
            Value::Integer(Integer::U64(n as u64))
        );
    }
}

#[test]
fn test_roundtrip_of_a_timestamp_gives_its_narrowest_payload() {
    let wide = Value::Extension(Extension {
        type_id: -1,
        data: vec![0, 0, 0, 0, 0, 0, 0, 0, 0, 0, 0, 1],
    });
    let narrow = Value::Extension(Extension {
        type_id: -1,
        data: vec![0, 0, 0, 1],
    });
    assert_eq!(roundtrip(&wide), narrow);
    assert_eq!(roundtrip(&narrow), narrow);
}

#[test]
fn test_encode_literal_vectors() {
    assert_eq!(to_vec(&Value::Nil).unwrap(), vec![0xc0]);
    assert_eq!(to_vec(&Value::Boolean(true)).unwrap(), vec![0xc3]);
    assert_eq!(to_vec(&Value::Boolean(false)).unwrap(), vec![0xc2]);
    assert_eq!(
        to_vec(&Value::Integer(Integer::I64(-1))).unwrap(),
        vec![0xff]
    );
    assert_eq!(
        to_vec(&Value::Integer(Integer::I64(-33))).unwrap(),
        vec![0xd0, 0xdf]
    );
    assert_eq!(to_vec(&Value::String(String::new())).unwrap(), vec![0xa0]);
    assert_eq!(to_vec(&Value::Array(vec![])).unwrap(), vec![0x90]);
    assert_eq!(to_vec(&Value::Mapping(vec![])).unwrap(), vec![0x80]);
}

#[test]
fn test_encode_picks_the_narrowest_tag() {
    assert_eq!(to_vec(&Value::Array(vec![Value::Nil; 3])).unwrap()[0], 0x93);
    assert_eq!(to_vec(&Value::Array(vec![Value::Nil; 15])).unwrap()[0], 0x9f);
    assert_eq!(
        &to_vec(&Value::Array(vec![Value::Nil; 16])).unwrap()[..3],
        &[0xdc, 0x00, 0x10]
    );
    assert_eq!(
        &to_vec(&Value::Array(vec![Value::Nil; 65_535])).unwrap()[..3],
        &[0xdc, 0xff, 0xff]
    );
    assert_eq!(
        &to_vec(&Value::Array(vec![Value::Nil; 65_536])).unwrap()[..5],
        &[0xdd, 0x00, 0x01, 0x00, 0x00]
    );
    let pair = (Value::Nil, Value::Nil);
    assert_eq!(
        to_vec(&Value::Mapping(vec![pair.clone(); 15])).unwrap()[0],
        0x8f
    );
    assert_eq!(
        &to_vec(&Value::Mapping(vec![pair.clone(); 16])).unwrap()[..3],
        &[0xde, 0x00, 0x10]
    );
    assert_eq!(
        &to_vec(&Value::Mapping(vec![pair.clone(); 65_535])).unwrap()[..3],
        &[0xde, 0xff, 0xff]
    );
    assert_eq!(
        &to_vec(&Value::Mapping(vec![pair; 65_536])).unwrap()[..5],
        &[0xdf, 0x00, 0x01, 0x00, 0x00]
    );
    assert_eq!(to_vec(&Value::String("x".repeat(31))).unwrap()[0], 0xbf);
    assert_eq!(
        &to_vec(&Value::String("x".repeat(32))).unwrap()[..2],
        &[0xd9, 32]
    );
    assert_eq!(
        &to_vec(&Value::String("x".repeat(255))).unwrap()[..2],
        &[0xd9, 255]
    );
    assert_eq!(
        &to_vec(&Value::String("x".repeat(256))).unwrap()[..3],
        &[0xda, 0x01, 0x00]
    );
    assert_eq!(
        &to_vec(&Value::String("x".repeat(65_535))).unwrap()[..3],
        &[0xda, 0xff, 0xff]
    );
    assert_eq!(
        &to_vec(&Value::String("x".repeat(65_536))).unwrap()[..5],
        &[0xdb, 0x00, 0x01, 0x00, 0x00]
    );
    assert_eq!(
        &to_vec(&Value::Binary(vec![0; 255])).unwrap()[..2],
        &[0xc4, 255]
    );
    assert_eq!(
        &to_vec(&Value::Binary(vec![0; 256])).unwrap()[..3],
        &[0xc5, 0x01, 0x00]
    );
    assert_eq!(
        &to_vec(&Value::Binary(vec![0; 65_535])).unwrap()[..3],
        &[0xc5, 0xff, 0xff]
    );
    assert_eq!(
        &to_vec(&Value::Binary(vec![0; 65_536])).unwrap()[..5],
        &[0xc6, 0x00, 0x01, 0x00, 0x00]
    );
}

#[test]
fn test_maps_with_the_same_pairs_in_another_order_differ() {
    let a = (Value::String("a".into()), Value::Integer(Integer::U64(1)));
    let b = (Value::String("b".into()), Value::Integer(Integer::U64(2)));
    let ab = Value::Mapping(vec![a.clone(), b.clone()]);
    let ba = Value::Mapping(vec![b, a]);
    assert_ne!(ab, ba);
    assert_eq!(
        to_vec(&ab).unwrap(),
        vec![0x82, 0xa1, b'a', 0x01, 0xa1, b'b', 0x02]
    );
    assert_eq!(
        to_vec(&ba).unwrap(),
        vec![0x82, 0xa1, b'b', 0x02, 0xa1, b'a', 0x01]
    );
    assert_eq!(roundtrip(&ab), ab);
    assert_eq!(roundtrip(&ba), ba);
}

#[test]
fn test_clone_is_equal() {
    let v = sample();
    assert_eq!(v.clone(), v);
}
