use msgpack::decode::Decoder;
use msgpack::error::MsgPackErr;
use msgpack::source::SliceReader;
use msgpack::value::{Extension, Integer, Value};
use msgpack::{from_slice, to_vec};

fn samples() -> Vec<Value> {
    vec![
        Value::Nil,
        Value::Boolean(true),
        Value::Integer(Integer::U64(200)),
        Value::Integer(Integer::I64(-70_000)),
        Value::Float(2.5f64.to_bits()),
        Value::String("héllo wörld, this one is longer than thirty-one bytes".into()),
        Value::Binary(vec![1, 2, 3]),
        Value::Extension(Extension {
            type_id: 9,
            data: vec![1, 2, 3, 4, 5],
        }),
        Value::Extension(Extension {
            type_id: -1,
            data: vec![0, 0, 0, 4, 0, 0, 0, 1],
        }),
        Value::Array(vec![
            Value::Nil,
            Value::Array(vec![Value::Integer(Integer::U64(1)); 20]),
            Value::String("x".into()),
        ]),
        Value::Mapping(vec![
            (Value::String("k".into()), Value::Binary(vec![7; 300])),
            (
                Value::Integer(Integer::I64(-1)),
                Value::Mapping(vec![(Value::Nil, Value::Nil)]),
            ),
        ]),
    ]
}

#[test]
fn test_every_shorter_start_of_an_encoding_is_unexpected_eof() {
    for v in samples() {
        let bytes = to_vec(&v).unwrap();
        for k in 0..bytes.len() {
            let err = from_slice(&bytes[..k]).unwrap_err();
            assert!(
                matches!(err, MsgPackErr::UnexpectedEof),
                "{:?} cut at {} gave {:?}",
                v,
                k,
                err
            );
        }
    }
}

#[test]
fn test_what_follows_a_value_does_not_change_it() {
    for v in samples() {
        let mut bytes = to_vec(&v).unwrap();
        let used = bytes.len();
        bytes.extend_from_slice(&[0xc1, 0xff, 0x00]);
        let mut dec = Decoder::new(SliceReader::new(&bytes));
        assert_eq!(dec.decode().unwrap(), v);
        assert_eq!(dec.into_inner().pos, used);
    }
}

#[test]
fn test_no_other_form_is_shorter_than_the_encoding() {
    // The same values in wider forms than they need.
    let wide: Vec<(Vec<u8>, Value)> = vec![
        (vec![0xcc, 0x05], Value::Integer(Integer::U64(5))),
        (vec![0xcd, 0x00, 0x05], Value::Integer(Integer::U64(5))),
        (vec![0xcf, 0, 0, 0, 0, 0, 0, 0, 5], Value::Integer(Integer::U64(5))),
        (vec![0xd0, 0xff], Value::Integer(Integer::I64(-1))),
        (vec![0xd1, 0xff, 0xff], Value::Integer(Integer::I64(-1))),
        (vec![0xd9, 0x01, b'a'], Value::String("a".into())),
        (vec![0xda, 0x00, 0x01, b'a'], Value::String("a".into())),
        (vec![0xdb, 0, 0, 0, 1, b'a'], Value::String("a".into())),
        (vec![0xc5, 0x00, 0x01, 0x09], Value::Binary(vec![9])),
        (vec![0xc6, 0, 0, 0, 1, 0x09], Value::Binary(vec![9])),
        (vec![0xdc, 0x00, 0x01, 0xc0], Value::Array(vec![Value::Nil])),
        (vec![0xdd, 0, 0, 0, 1, 0xc0], Value::Array(vec![Value::Nil])),
        (
            vec![0xde, 0x00, 0x01, 0xc0, 0xc0],
            Value::Mapping(vec![(Value::Nil, Value::Nil)]),
        ),
        (
            vec![0xdf, 0, 0, 0, 1, 0xc0, 0xc0],
            Value::Mapping(vec![(Value::Nil, Value::Nil)]),
        ),
        (
            vec![0xc7, 0x01, 0x05, 0xaa],
            Value::Extension(Extension {
                type_id: 5,
                data: vec![0xaa],
            }),
        ),
        (
            vec![0xc8, 0x00, 0x01, 0x05, 0xaa],
            Value::Extension(Extension {
                type_id: 5,
                data: vec![0xaa],
            }),
        ),
    ];
    for (bytes, value) in wide {
        assert_eq!(from_slice(&bytes).unwrap(), value);
        let narrow = to_vec(&value).unwrap();
        assert!(narrow.len() < bytes.len(), "{:?}", value);
        assert_eq!(from_slice(&narrow).unwrap(), value);
    }
}

#[test]
fn test_the_tag_decides_the_kind() {
    for tag in 0..=255u8 {
        let mut bytes = vec![tag];
        bytes.extend_from_slice(&[0u8; 40]);
        let got = from_slice(&bytes);
        let kind = match &got {
            Ok(Value::Nil) => "nil",
            Ok(Value::Boolean(_)) => "bool",
            Ok(Value::Integer(Integer::U64(_))) => "unsigned",
            Ok(Value::Integer(Integer::I64(_))) => "signed",
            Ok(Value::Float(_)) => "float",
            Ok(Value::String(_)) => "str",
            Ok(Value::Binary(_)) => "bin",
            Ok(Value::Array(_)) => "array",
            Ok(Value::Mapping(_)) => "map",
            Ok(Value::Extension(_)) => "ext",
            Err(MsgPackErr::InvalidFormat(b)) => {
                assert_eq!(*b, 0xc1);
                "none"
            }
            Err(e) => panic!("{tag:#x} gave {e:?}"),
        };
        let expected = match tag {
            0x00..=0x7f | 0xcc..=0xcf => "unsigned",
            0xe0..=0xff | 0xd0..=0xd3 => "signed",
            0x80..=0x8f | 0xde | 0xdf => "map",
            0x90..=0x9f | 0xdc | 0xdd => "array",
            0xa0..=0xbf | 0xd9..=0xdb => "str",
            0xc0 => "nil",
            0xc1 => "none",
            0xc2 | 0xc3 => "bool",
            0xc4..=0xc6 => "bin",
            0xc7..=0xc9 | 0xd4..=0xd8 => "ext",
            0xca | 0xcb => "float",
        };
        assert_eq!(kind, expected, "{tag:#x}");
    }
}

#[test]
fn test_values_that_differ_are_written_as_different_bytes() {
    let all = samples();
    for (i, a) in all.iter().enumerate() {
        for (j, b) in all.iter().enumerate() {
            assert_eq!(to_vec(a).unwrap() == to_vec(b).unwrap(), i == j);
        }
    }
}
