use msgpack::encode::validate::{validate, validate_arr, validate_map};
use msgpack::encode::Encoder;
use msgpack::error::MsgPackErr;
use msgpack::sink::Sink;
use msgpack::value::{Extension, Integer, Value};
use msgpack::{to_vec, to_writer};

struct Limited {
    room: usize,
    taken: Vec<u8>,
}

impl Sink for Limited {
    fn write_all(&mut self, buf: &[u8]) -> std::io::Result<()> {
        let n = buf.len().min(self.room);
        self.taken.extend_from_slice(&buf[..n]);
        self.room -= n;
        if n < buf.len() {
            return Err(std::io::Error::new(std::io::ErrorKind::WriteZero, "full"));
        }
        Ok(())
    }
}

fn sample() -> Value {
    Value::Array(vec![
        Value::String("hello".into()),
        Value::Mapping(vec![(Value::Nil, Value::Integer(Integer::U64(300)))]),
        Value::Binary(vec![9; 40]),
    ])
}

#[test]
fn test_to_writer_writes_what_to_vec_gives() {
    let v = sample();
    let mut out = Vec::new();
    to_writer(&mut out, &v).unwrap();
    assert_eq!(out, to_vec(&v).unwrap());
}

#[test]
fn test_to_writer_appends() {
    let mut out = vec![1, 2, 3];
    to_writer(&mut out, &Value::Boolean(true)).unwrap();
    to_writer(&mut out, &Value::Nil).unwrap();
    assert_eq!(out, vec![1, 2, 3, 0xc3, 0xc0]);
}

#[test]
fn test_encoder_writes_what_to_vec_gives() {
    let v = sample();
    let mut enc = Encoder::new(Vec::new());
    enc.encode(&v).unwrap();
    enc.encode(&Value::Nil).unwrap();
    let mut expected = to_vec(&v).unwrap();
    expected.push(0xc0);
    assert_eq!(enc.into_inner(), expected);
}

#[test]
fn test_failing_sink_keeps_a_start_of_the_encoding() {
    let v = sample();
    let whole = to_vec(&v).unwrap();
    for room in 0..whole.len() {
        let mut sink = Limited {
            room,
            taken: Vec::new(),
        };
        let err = Encoder::new(&mut sink).encode(&v).unwrap_err();
        assert!(matches!(err, MsgPackErr::Io(_)));
        assert_eq!(sink.taken, &whole[..room]);

        let mut sink = Limited {
            room,
            taken: Vec::new(),
        };
        let err = to_writer(&mut sink, &v).unwrap_err();
        assert!(matches!(err, MsgPackErr::Io(_)));
        assert_eq!(sink.taken, &whole[..room]);
    }
    let mut sink = Limited {
        room: whole.len(),
        taken: Vec::new(),
    };
    Encoder::new(&mut sink).encode(&v).unwrap();
    assert_eq!(sink.taken, whole);
}

#[test]
fn test_a_value_that_cannot_be_written_leaves_the_sink_untouched() {
    let bad = Value::Array(vec![
        Value::Nil,
        Value::Mapping(vec![(
            Value::String("when".into()),
            Value::Extension(Extension {
                type_id: -1,
                data: vec![1, 2, 3],
            }),
        )]),
    ]);
    assert!(matches!(
        to_vec(&bad).unwrap_err(),
        MsgPackErr::InvalidFormat(0xc9)
    ));
    let mut out = vec![7];
    assert!(matches!(
        to_writer(&mut out, &bad).unwrap_err(),
        MsgPackErr::InvalidFormat(0xc9)
    ));
    assert_eq!(out, vec![7]);
    let mut enc = Encoder::new(vec![7]);
    assert!(matches!(
        enc.encode(&bad).unwrap_err(),
        MsgPackErr::InvalidFormat(0xc9)
    ));
    assert_eq!(enc.into_inner(), vec![7]);
}

#[test]
fn test_validate_reports_the_first_node_that_cannot_be_written() {
    assert!(validate(&sample()).is_ok());
    let bad_time = Value::Extension(Extension {
        type_id: -1,
        data: vec![0; 5],
    });
    assert!(matches!(
        validate(&bad_time).unwrap_err(),
        MsgPackErr::InvalidFormat(0xc9)
    ));
    assert!(matches!(
        validate_arr(&[Value::Nil, bad_time.clone()]).unwrap_err(),
        MsgPackErr::InvalidFormat(0xc9)
    ));
    assert!(matches!(
        validate_map(&[(bad_time.clone(), Value::Nil)]).unwrap_err(),
        MsgPackErr::InvalidFormat(0xc9)
    ));
    assert!(matches!(
        validate_map(&[(Value::Nil, bad_time)]).unwrap_err(),
        MsgPackErr::InvalidFormat(0xc9)
    ));
    assert!(validate_arr(&[]).is_ok());
    assert!(validate_map(&[]).is_ok());
}
