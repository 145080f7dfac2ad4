use msgpack::decode::Decoder;
use msgpack::error::MsgPackErr;
use msgpack::from_slice;
use msgpack::source::SliceReader;
use msgpack::value::{Extension, Integer, Value};

fn decode_all(bytes: &[u8]) -> Result<Value, MsgPackErr> {
    from_slice(bytes)
}

#[test]
fn test_decode_nil_and_booleans() {
    assert_eq!(decode_all(&[0xc0]).unwrap(), Value::Nil);
    assert_eq!(decode_all(&[0xc2]).unwrap(), Value::Boolean(false));
    assert_eq!(decode_all(&[0xc3]).unwrap(), Value::Boolean(true));
}

#[test]
fn test_decode_positive_fixint_is_unsigned() {
    assert_eq!(
        decode_all(&[0x00]).unwrap(),
        Value::Integer(Integer::U64(0))
    );
    assert_eq!(
        decode_all(&[0x7f]).unwrap(),
        Value::Integer(Integer::U64(127))
    );
}

#[test]
fn test_decode_negative_fixint_is_signed() {
    assert_eq!(
        decode_all(&[0xff]).unwrap(),
        Value::Integer(Integer::I64(-1))
    );
    assert_eq!(
        decode_all(&[0xe0]).unwrap(),
        Value::Integer(Integer::I64(-32))
    );
}

#[test]
fn test_decode_unsigned_widths() {
    assert_eq!(
        decode_all(&[0xcc, 0xff]).unwrap(),
        Value::Integer(Integer::U64(255))
    );
    assert_eq!(
        decode_all(&[0xcd, 0x01, 0x00]).unwrap(),
        Value::Integer(Integer::U64(256))
    );
    assert_eq!(
        decode_all(&[0xce, 0x00, 0x01, 0x00, 0x00]).unwrap(),
        Value::Integer(Integer::U64(65536))
    );
    assert_eq!(
        decode_all(&[0xcf, 0xff, 0xff, 0xff, 0xff, 0xff, 0xff, 0xff, 0xff]).unwrap(),
        Value::Integer(Integer::U64(u64::MAX))
    );
    assert_eq!(
        decode_all(&[0xcf, 0x01, 0x02, 0x03, 0x04, 0x05, 0x06, 0x07, 0x08]).unwrap(),
        Value::Integer(Integer::U64(0x0102_0304_0506_0708))
    );
}

#[test]
fn test_decode_signed_widths() {
    assert_eq!(
        decode_all(&[0xd0, 0xdf]).unwrap(),
        Value::Integer(Integer::I64(-33))
    );
    assert_eq!(
        decode_all(&[0xd0, 0x80]).unwrap(),
        Value::Integer(Integer::I64(-128))
    );
    assert_eq!(
        decode_all(&[0xd1, 0xff, 0x7f]).unwrap(),
        Value::Integer(Integer::I64(-129))
    );
    assert_eq!(
        decode_all(&[0xd1, 0x80, 0x00]).unwrap(),
        Value::Integer(Integer::I64(-32768))
    );
    assert_eq!(
        decode_all(&[0xd2, 0xff, 0xff, 0x7f, 0xff]).unwrap(),
        Value::Integer(Integer::I64(-32769))
    );
    assert_eq!(
        decode_all(&[0xd2, 0x80, 0x00, 0x00, 0x00]).unwrap(),
        Value::Integer(Integer::I64(-2147483648))
    );
    let mut bytes = vec![0xd3];
    bytes.extend_from_slice(&i64::MIN.to_be_bytes());
    assert_eq!(
        decode_all(&bytes).unwrap(),
        Value::Integer(Integer::I64(i64::MIN))
    );
    let mut bytes = vec![0xd3];
    bytes.extend_from_slice(&(-2147483649i64).to_be_bytes());
    assert_eq!(
        decode_all(&bytes).unwrap(),
        Value::Integer(Integer::I64(-2147483649))
    );
}

#[test]
fn test_decode_signed_tag_with_small_magnitude_stays_signed() {
    // The tag decides the variant, not the magnitude.
    assert_eq!(
        decode_all(&[0xd0, 0x05]).unwrap(),
        Value::Integer(Integer::I64(5))
    );
    assert_eq!(
        decode_all(&[0xd3, 0, 0, 0, 0, 0, 0, 0, 7]).unwrap(),
        Value::Integer(Integer::I64(7))
    );
    assert_eq!(
        decode_all(&[0xcf, 0, 0, 0, 0, 0, 0, 0, 7]).unwrap(),
        Value::Integer(Integer::U64(7))
    );
}

#[test]
fn test_decode_float64() {
    let mut bytes = vec![0xcb];
    bytes.extend_from_slice(&1.5f64.to_bits().to_be_bytes());
    assert_eq!(
        decode_all(&bytes).unwrap(),
        Value::Float(1.5f64.to_bits())
    );
}

#[test]
fn test_decode_float32_is_widened() {
    for v in [0.0f32, -0.0, 1.0, -1.0, 1.5, -3.75, 1000.125, 42.42, f32::MAX, f32::MIN_POSITIVE] {
        let mut bytes = vec![0xca];
        bytes.extend_from_slice(&v.to_bits().to_be_bytes());
        assert_eq!(
            decode_all(&bytes).unwrap(),
            Value::Float((v as f64).to_bits())
        );
    }
}

#[test]
fn test_decode_strings() {
    assert_eq!(decode_all(&[0xa0]).unwrap(), Value::String(String::new()));
    assert_eq!(
        decode_all(&[0xa3, b'a', b'b', b'c']).unwrap(),
        Value::String("abc".into())
    );
    let mut bytes = vec![0xd9, 32];
    bytes.extend(std::iter::repeat(b'y').take(32));
    assert_eq!(decode_all(&bytes).unwrap(), Value::String("y".repeat(32)));
    let mut bytes = vec![0xda, 0x01, 0x00];
    bytes.extend(std::iter::repeat(b'a').take(256));
    assert_eq!(decode_all(&bytes).unwrap(), Value::String("a".repeat(256)));
    let mut bytes = vec![0xdb, 0x00, 0x01, 0x00, 0x00];
    bytes.extend(std::iter::repeat(b'c').take(65536));
    assert_eq!(
        decode_all(&bytes).unwrap(),
        Value::String("c".repeat(65536))
    );
}

#[test]
fn test_decode_string_multibyte() {
    let s = "😀é𐍈";
    let mut bytes = vec![0xa0 | (s.len() as u8)];
    bytes.extend_from_slice(s.as_bytes());
    assert_eq!(decode_all(&bytes).unwrap(), Value::String(s.into()));
}

#[test]
fn test_decode_invalid_utf8_is_reported() {
    let err = decode_all(&[0xa2, 0xff, 0xfe]).unwrap_err();
    assert!(matches!(err, MsgPackErr::InvalidUtf8));
    let err = decode_all(&[0xd9, 0x01, 0x80]).unwrap_err();
    assert!(matches!(err, MsgPackErr::InvalidUtf8));
    // An overlong encoding and a lone surrogate are not valid either.
    let err = decode_all(&[0xa2, 0xc0, 0x80]).unwrap_err();
    assert!(matches!(err, MsgPackErr::InvalidUtf8));
    let err = decode_all(&[0xa3, 0xed, 0xa0, 0x80]).unwrap_err();
    assert!(matches!(err, MsgPackErr::InvalidUtf8));
}

#[test]
fn test_decode_binaries() {
    assert_eq!(
        decode_all(&[0xc4, 0x00]).unwrap(),
        Value::Binary(Vec::new())
    );
    assert_eq!(
        decode_all(&[0xc4, 0x02, 0x01, 0x02]).unwrap(),
        Value::Binary(vec![1, 2])
    );
    let mut bytes = vec![0xc5, 0x01, 0x00];
    bytes.extend(std::iter::repeat(0xbb).take(256));
    assert_eq!(decode_all(&bytes).unwrap(), Value::Binary(vec![0xbb; 256]));
    let mut bytes = vec![0xc6, 0x00, 0x01, 0x00, 0x00];
    bytes.extend(std::iter::repeat(0xdd).take(65536));
    assert_eq!(
        decode_all(&bytes).unwrap(),
        Value::Binary(vec![0xdd; 65536])
    );
}

#[test]
fn test_decode_arrays() {
    assert_eq!(decode_all(&[0x90]).unwrap(), Value::Array(vec![]));
    assert_eq!(
        decode_all(&[0x93, 0xc3, 0x01, 0xc0]).unwrap(),
        Value::Array(vec![
            Value::Boolean(true),
            Value::Integer(Integer::U64(1)),
            Value::Nil
        ])
    );
    let mut bytes = vec![0xdc, 0x00, 0x10];
    bytes.extend(std::iter::repeat(0xc0).take(16));
    assert_eq!(
        decode_all(&bytes).unwrap(),
        Value::Array(vec![Value::Nil; 16])
    );
    let mut bytes = vec![0xdd, 0x00, 0x01, 0x00, 0x00];
    bytes.extend(std::iter::repeat(0xc0).take(65536));
    assert_eq!(
        decode_all(&bytes).unwrap(),
        Value::Array(vec![Value::Nil; 65536])
    );
}

#[test]
fn test_decode_nested_arrays() {
    let mut bytes = vec![0x91; 6];
    bytes.push(0xc0);
    let mut expected = Value::Nil;
    for _ in 0..6 {
        expected = Value::Array(vec![expected]);
    }
    assert_eq!(decode_all(&bytes).unwrap(), expected);
}

#[test]
fn test_decode_maps_keep_order_and_duplicates() {
    assert_eq!(decode_all(&[0x80]).unwrap(), Value::Mapping(vec![]));
    assert_eq!(
        decode_all(&[0x82, 0xa1, b'b', 0x02, 0xa1, b'a', 0x01]).unwrap(),
        Value::Mapping(vec![
            (Value::String("b".into()), Value::Integer(Integer::U64(2))),
            (Value::String("a".into()), Value::Integer(Integer::U64(1))),
        ])
    );
    assert_eq!(
        decode_all(&[0x82, 0x01, 0xc0, 0x01, 0xc3]).unwrap(),
        Value::Mapping(vec![
            (Value::Integer(Integer::U64(1)), Value::Nil),
            (Value::Integer(Integer::U64(1)), Value::Boolean(true)),
        ])
    );
    let mut bytes = vec![0xde, 0x00, 0x10];
    for i in 0..16u8 {
        bytes.push(i);
        bytes.push(0xc0);
    }
    let expected = (0..16u64)
        .map(|i| (Value::Integer(Integer::U64(i)), Value::Nil))
        .collect::<Vec<_>>();
    assert_eq!(decode_all(&bytes).unwrap(), Value::Mapping(expected));
}

#[test]
fn test_decode_extensions() {
    assert_eq!(
        decode_all(&[0xd4, 42, 0xaa]).unwrap(),
        Value::Extension(Extension {
            type_id: 42,
            data: vec![0xaa]
        })
    );
    assert_eq!(
        decode_all(&[0xd5, 0x80, 0xde, 0xad]).unwrap(),
        Value::Extension(Extension {
            type_id: -128,
            data: vec![0xde, 0xad]
        })
    );
    assert_eq!(
        decode_all(&[0xc7, 0x00, 5]).unwrap(),
        Value::Extension(Extension {
            type_id: 5,
            data: vec![]
        })
    );
    let mut bytes = vec![0xc8, 0x01, 0x2c, 11];
    bytes.extend(std::iter::repeat(0xcc).take(300));
    assert_eq!(
        decode_all(&bytes).unwrap(),
        Value::Extension(Extension {
            type_id: 11,
            data: vec![0xcc; 300]
        })
    );
    let mut bytes = vec![0xc9, 0x00, 0x01, 0x11, 0x70, 12];
    bytes.extend(std::iter::repeat(0xdd).take(70_000));
    assert_eq!(
        decode_all(&bytes).unwrap(),
        Value::Extension(Extension {
            type_id: 12,
            data: vec![0xdd; 70_000]
        })
    );
}

#[test]
fn test_decode_timestamp_is_canonical_whatever_the_width() {
    let canonical = Value::Extension(Extension {
        type_id: -1,
        data: vec![0x00, 0x00, 0x00, 0x01],
    });
    // One second, no nanoseconds, in each of the three widths.
    assert_eq!(
        decode_all(&[0xd6, 0xff, 0, 0, 0, 1]).unwrap(),
        canonical
    );
    assert_eq!(
        decode_all(&[0xd7, 0xff, 0, 0, 0, 0, 0, 0, 0, 1]).unwrap(),
        canonical
    );
    assert_eq!(
        decode_all(&[0xc7, 12, 0xff, 0, 0, 0, 0, 0, 0, 0, 0, 0, 0, 0, 1]).unwrap(),
        canonical
    );
}

#[test]
fn test_decode_timestamp_with_bad_length_is_invalid_format() {
    let err = decode_all(&[0xd5, 0xff, 1, 2]).unwrap_err();
    assert!(matches!(err, MsgPackErr::InvalidFormat(0xff)));
    let err = decode_all(&[0xc7, 3, 0xff, 1, 2, 3]).unwrap_err();
    assert!(matches!(err, MsgPackErr::InvalidFormat(0xff)));
    let mut sixteen = vec![0xd8, 0xff];
    sixteen.extend_from_slice(&[0u8; 16]);
    let err = decode_all(&sixteen).unwrap_err();
    assert!(matches!(err, MsgPackErr::InvalidFormat(0xff)));
}

#[test]
fn test_decode_unassigned_tag_is_invalid_format() {
    let err = decode_all(&[0xc1]).unwrap_err();
    assert!(matches!(err, MsgPackErr::InvalidFormat(0xc1)));
    let err = decode_all(&[0x91, 0xc1]).unwrap_err();
    assert!(matches!(err, MsgPackErr::InvalidFormat(0xc1)));
}

#[test]
fn test_decode_empty_input_is_unexpected_eof() {
    let err = decode_all(&[]).unwrap_err();
    assert!(matches!(err, MsgPackErr::UnexpectedEof));
}

#[test]
fn test_decode_declared_length_beyond_input_is_unexpected_eof() {
    for bytes in [
        &[0xa3, b'a', b'b'][..],
        &[0xd9][..],
        &[0xd9, 0x05, b'a'][..],
        &[0xdb, 0xff, 0xff, 0xff, 0xff, b'a'][..],
        &[0xc4, 0x02, 0x01][..],
        &[0xc6, 0x7f, 0xff, 0xff, 0xff][..],
        &[0x92, 0xc0][..],
        &[0xdd, 0xff, 0xff, 0xff, 0xff, 0xc0][..],
        &[0x81, 0xc0][..],
        &[0xdf, 0xff, 0xff, 0xff, 0xff, 0xc0, 0xc0][..],
        &[0xd6, 0x01, 0x00][..],
        &[0xc7, 0x05][..],
        &[0xc9, 0xff, 0xff, 0xff, 0xff, 0x01, 0x00][..],
        &[0xcd, 0x01][..],
        &[0xd3, 0, 0, 0][..],
        &[0xca, 0, 0][..],
        &[0xcb, 0, 0, 0, 0][..],
    ] {
        let err = decode_all(bytes).unwrap_err();
        assert!(
            matches!(err, MsgPackErr::UnexpectedEof),
            "{:?} gave {:?}",
            bytes,
            err
        );
    }
}

#[test]
fn test_decode_uses_exactly_the_bytes_of_one_value() {
    let data = [0x92, 0x01, 0xa1, b'x', 0xc3, 0xc0];
    let mut dec = Decoder::new(SliceReader::new(&data));
    assert_eq!(
        dec.decode().unwrap(),
        Value::Array(vec![
            Value::Integer(Integer::U64(1)),
            Value::String("x".into())
        ])
    );
    assert_eq!(dec.decode().unwrap(), Value::Boolean(true));
    assert_eq!(dec.decode().unwrap(), Value::Nil);
    assert!(matches!(
        dec.decode().unwrap_err(),
        MsgPackErr::UnexpectedEof
    ));
    let reader = dec.into_inner();
    assert_eq!(reader.pos, data.len());
}

#[test]
fn test_decode_from_borrowed_source() {
    let data = [0xc3, 0xc2];
    let mut reader = SliceReader::new(&data);
    assert_eq!(
        msgpack::from_reader(&mut reader).unwrap(),
        Value::Boolean(true)
    );
    assert_eq!(
        msgpack::from_reader(&mut reader).unwrap(),
        Value::Boolean(false)
    );
    assert_eq!(reader.pos, 2);
}

#[test]
fn test_decode_parts_by_prefix() {
    let data = [0x05, b'h', b'i'];
    let mut dec = Decoder::new(SliceReader::new(&data));
    assert_eq!(dec.read_u8().unwrap(), 5);
    assert_eq!(dec.decode_str(0xa2).unwrap(), "hi");

    let data = [0x01, 0x02, 0x03, 0x04, 0x05, 0x06, 0x07, 0x08];
    assert_eq!(
        Decoder::new(SliceReader::new(&data)).read_u16().unwrap(),
        0x0102
    );
    assert_eq!(
        Decoder::new(SliceReader::new(&data)).read_u32().unwrap(),
        0x0102_0304
    );
    assert_eq!(
        Decoder::new(SliceReader::new(&data)).read_u64().unwrap(),
        0x0102_0304_0506_0708
    );
    let data = [0xff, 0xfe, 0xfd, 0xfc, 0xfb, 0xfa, 0xf9, 0xf8];
    assert_eq!(Decoder::new(SliceReader::new(&data)).read_i8().unwrap(), -1);
    assert_eq!(
        Decoder::new(SliceReader::new(&data)).read_i16().unwrap(),
        i16::from_be_bytes([0xff, 0xfe])
    );
    assert_eq!(
        Decoder::new(SliceReader::new(&data)).read_i32().unwrap(),
        i32::from_be_bytes([0xff, 0xfe, 0xfd, 0xfc])
    );
    assert_eq!(
        Decoder::new(SliceReader::new(&data)).read_i64().unwrap(),
        i64::from_be_bytes(data)
    );
}

#[test]
fn test_decode_part_with_foreign_prefix_is_invalid_format() {
    let data = [0x00; 4];
    let mut dec = Decoder::new(SliceReader::new(&data));
    assert!(matches!(
        dec.decode_int(0xc0).unwrap_err(),
        MsgPackErr::InvalidFormat(0xc0)
    ));
    assert!(matches!(
        dec.decode_float(0xc0).unwrap_err(),
        MsgPackErr::InvalidFormat(0xc0)
    ));
    assert!(matches!(
        dec.decode_str(0xc4).unwrap_err(),
        MsgPackErr::InvalidFormat(0xc4)
    ));
    assert!(matches!(
        dec.decode_bin(0xd9).unwrap_err(),
        MsgPackErr::InvalidFormat(0xd9)
    ));
    assert!(matches!(
        dec.decode_arr(0x80).unwrap_err(),
        MsgPackErr::InvalidFormat(0x80)
    ));
    assert!(matches!(
        dec.decode_map(0x90).unwrap_err(),
        MsgPackErr::InvalidFormat(0x90)
    ));
    assert!(matches!(
        dec.decode_ext(0xc0).unwrap_err(),
        MsgPackErr::InvalidFormat(0xc0)
    ));
    assert_eq!(dec.into_inner().pos, 0);
}

#[test]
fn test_decode_timestamp_payloads() {
    type D<'a> = Decoder<SliceReader<'a>>;
    let ext = D::decode_timestamp(&[0, 0, 0, 1]).unwrap();
    assert_eq!(ext.type_id, -1);
    assert_eq!(ext.data, vec![0, 0, 0, 1]);
    // One nanosecond, one second: the 64-bit form.
    let ext = D::decode_timestamp(&[0, 0, 0, 1, 0, 0, 0, 0, 0, 0, 0, 1]).unwrap();
    assert_eq!(ext.data, vec![0, 0, 0, 4, 0, 0, 0, 1]);
    // A negative second count needs the 96-bit form.
    let mut wide = vec![0, 0, 0, 0];
    wide.extend_from_slice(&(-1i64).to_be_bytes());
    let ext = D::decode_timestamp(&wide).unwrap();
    assert_eq!(ext.data, wide);
    assert!(matches!(
        D::decode_timestamp(&[1, 2, 3]).unwrap_err(),
        MsgPackErr::InvalidFormat(0xff)
    ));
}
