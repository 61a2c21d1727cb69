use bytes::Bytes;
use hikv::command_request::Data;
use hikv::pb::message::{
    merge_value_from, read_request, read_response, read_value, value_to_bytes, write_kvset,
    write_request, write_response, write_value,
};
use hikv::pb::wire::{append, put_bytes_field, put_fixed64_field, put_varint_field, read_field, take_varint, Chunk};
use hikv::{
    value, CommandRequest, CommandResponse, Del, Exist, FrameCodec, Get, HikvError, KvSet, Value,
};

fn float(x: f64) -> Value {
    Value { value: Some(value::Value::Float(x.to_bits())) }
}

fn bytes_of_value(v: &Value) -> Vec<u8> {
    let mut out = Vec::new();
    write_value(v, &mut out);
    out
}

#[test]
fn values_are_written_as_one_field() {
    assert_eq!(bytes_of_value(&Value::default()), Vec::<u8>::new());
    assert_eq!(bytes_of_value(&"world".into()), vec![0x0a, 5, b'w', b'o', b'r', b'l', b'd']);
    assert_eq!(bytes_of_value(&"".into()), vec![0x0a, 0]);
    assert_eq!(bytes_of_value(&"é".into()), vec![0x0a, 2, 0xc3, 0xa9]);
    assert_eq!(bytes_of_value(&b"\x00\x01".into()), vec![0x12, 2, 0, 1]);
    assert_eq!(bytes_of_value(&0i64.into()), vec![0x18, 0]);
    assert_eq!(bytes_of_value(&18i64.into()), vec![0x18, 18]);
    assert_eq!(bytes_of_value(&300i64.into()), vec![0x18, 0xac, 0x02]);
    assert_eq!(
        bytes_of_value(&(-1i64).into()),
        vec![0x18, 0xff, 0xff, 0xff, 0xff, 0xff, 0xff, 0xff, 0xff, 0xff, 0x01]
    );
    assert_eq!(
        bytes_of_value(&i64::MIN.into()),
        vec![0x18, 0x80, 0x80, 0x80, 0x80, 0x80, 0x80, 0x80, 0x80, 0x80, 0x01]
    );
    assert_eq!(bytes_of_value(&float(1.0)), vec![0x21, 0, 0, 0, 0, 0, 0, 0xf0, 0x3f]);
    assert_eq!(bytes_of_value(&true.into()), vec![0x28, 1]);
    assert_eq!(bytes_of_value(&false.into()), vec![0x28, 0]);
    assert_eq!(value_to_bytes(&18i64.into()), vec![0x18, 18]);
}

#[test]
fn values_agree_with_the_field_encoders_of_prost() {
    let mut expected = Vec::new();
    prost::encoding::string::encode(1, &"hello world".to_string(), &mut expected);
    assert_eq!(bytes_of_value(&"hello world".into()), expected);

    let mut expected = Vec::new();
    prost::encoding::bytes::encode(2, &vec![1u8, 2, 3], &mut expected);
    assert_eq!(bytes_of_value(&b"\x01\x02\x03".into()), expected);

    for i in [0i64, 1, -1, 127, 128, 16383, 16384, i64::MAX, i64::MIN, -123456789] {
        let mut expected = Vec::new();
        prost::encoding::int64::encode(3, &i, &mut expected);
        assert_eq!(bytes_of_value(&i.into()), expected);
    }

    for x in [0.0f64, 1.0, -2.5, f64::MAX, f64::INFINITY] {
        let mut expected = Vec::new();
        prost::encoding::double::encode(4, &x, &mut expected);
        assert_eq!(bytes_of_value(&float(x)), expected);
    }

    for b in [false, true] {
        let mut expected = Vec::new();
        prost::encoding::bool::encode(5, &b, &mut expected);
        assert_eq!(bytes_of_value(&b.into()), expected);
    }
}

#[test]
fn values_read_back() {
    let values: Vec<Value> = vec![
        Value::default(),
        "world".into(),
        "".into(),
        "snow ☃ man".into(),
        b"hello".into(),
        Bytes::from(vec![0u8; 3000]).into(),
        0i64.into(),
        (-1i64).into(),
        i64::MAX.into(),
        i64::MIN.into(),
        float(3.25),
        float(f64::NAN),
        true.into(),
        false.into(),
    ];
    for v in values {
        let bytes = bytes_of_value(&v);
        assert_eq!(read_value(&bytes), Ok(v.clone()));
        assert_eq!(Value::try_from(&bytes[..]), Ok(v.clone()));
        let again: Vec<u8> = v.try_into().unwrap();
        assert_eq!(again, bytes);
    }
}

#[test]
fn requests_are_written_as_their_command() {
    let bytes = CommandRequest::new_set("hello", "world".into()).to_wire();
    assert_eq!(
        bytes,
        vec![
            0x0a, 16, 0x0a, 5, b'h', b'e', b'l', b'l', b'o', 0x12, 7, 0x0a, 5, b'w', b'o', b'r',
            b'l', b'd'
        ]
    );
    assert_eq!(CommandRequest::new_get("k").to_wire(), vec![0x12, 3, 0x0a, 1, b'k']);
    assert_eq!(CommandRequest::new_del("k").to_wire(), vec![0x1a, 3, 0x0a, 1, b'k']);
    assert_eq!(CommandRequest::new_exist("k").to_wire(), vec![0x22, 3, 0x0a, 1, b'k']);
    assert_eq!(CommandRequest::new_get("").to_wire(), vec![0x12, 0]);
    assert_eq!(CommandRequest { data: None }.to_wire(), Vec::<u8>::new());
    // a set without a value, and one with the empty value
    let bare = CommandRequest { data: Some(Data::KvSet(KvSet { key: "k".into(), value: None })) };
    assert_eq!(bare.to_wire(), vec![0x0a, 3, 0x0a, 1, b'k']);
    assert_eq!(
        CommandRequest::new_set("k", Value::default()).to_wire(),
        vec![0x0a, 5, 0x0a, 1, b'k', 0x12, 0]
    );
    let mut out = vec![0xee];
    write_request(&CommandRequest::new_get("k"), &mut out);
    assert_eq!(out, vec![0xee, 0x12, 3, 0x0a, 1, b'k']);
    let mut out = vec![0xee];
    write_kvset(&KvSet { key: "k".into(), value: Some(true.into()) }, &mut out);
    assert_eq!(out, vec![0xee, 0x0a, 1, b'k', 0x12, 2, 0x28, 1]);
}

#[test]
fn requests_read_back() {
    let requests = vec![
        CommandRequest { data: None },
        CommandRequest::new_set("hello", "world".into()),
        CommandRequest::new_set("", Value::default()),
        CommandRequest::new_set("big", Bytes::from(vec![1u8; 70000]).into()),
        CommandRequest { data: Some(Data::KvSet(KvSet { key: "k".into(), value: None })) },
        CommandRequest { data: Some(Data::KvSet(KvSet { key: "".into(), value: None })) },
        CommandRequest::new_get("hello"),
        CommandRequest::new_get(""),
        CommandRequest::new_del("hello"),
        CommandRequest::new_exist("hello"),
        CommandRequest { data: Some(Data::Get(Get { key: "g".into() })) },
        CommandRequest { data: Some(Data::Del(Del { key: "d".into() })) },
        CommandRequest { data: Some(Data::Exist(Exist { key: "e".into() })) },
    ];
    for r in requests {
        let bytes = r.to_wire();
        assert_eq!(read_request(&bytes), Ok(r.clone()));
        assert_eq!(CommandRequest::from_wire(&bytes), Ok(r));
    }
}

#[test]
fn responses_are_written_field_by_field() {
    let resp = CommandResponse { status: 200, message: "".into(), values: vec![] };
    assert_eq!(resp.to_wire(), vec![0x08, 0xc8, 0x01]);
    let resp = CommandResponse { status: 0, message: "".into(), values: vec![] };
    assert_eq!(resp.to_wire(), Vec::<u8>::new());
    let resp = CommandResponse { status: 404, message: "no".into(), values: vec![] };
    assert_eq!(resp.to_wire(), vec![0x08, 0x94, 0x03, 0x12, 2, b'n', b'o']);
    let resp: CommandResponse = vec![Value::from(1i64), Value::default(), "r".into()].into();
    assert_eq!(
        resp.to_wire(),
        vec![0x08, 0xc8, 0x01, 0x1a, 2, 0x18, 1, 0x1a, 0, 0x1a, 3, 0x0a, 1, b'r']
    );
    let resp = CommandResponse { status: u32::MAX, message: "".into(), values: vec![] };
    assert_eq!(resp.to_wire(), vec![0x08, 0xff, 0xff, 0xff, 0xff, 0x0f]);
    let mut out = vec![0xee];
    write_response(&CommandResponse { status: 1, message: "".into(), values: vec![] }, &mut out);
    assert_eq!(out, vec![0xee, 0x08, 1]);
}

#[test]
fn responses_read_back() {
    let responses = vec![
        CommandResponse { status: 0, message: "".into(), values: vec![] },
        CommandResponse { status: 200, message: "".into(), values: vec![Value::default()] },
        CommandResponse { status: 404, message: "Not Found value for key: k".into(), values: vec![] },
        CommandResponse { status: u32::MAX, message: "x".into(), values: vec![true.into(), false.into()] },
        CommandResponse::from(vec![Value::from(1i64), "rust".into(), b"hello".into(), float(-0.5)]),
        CommandResponse::from(Value::from(Bytes::from(vec![0u8; 5000]))),
    ];
    for r in responses {
        let bytes = r.to_wire();
        assert_eq!(read_response(&bytes), Ok(r.clone()));
        assert_eq!(CommandResponse::from_wire(&bytes), Ok(r));
    }
}

#[test]
fn unknown_fields_are_passed_over() {
    // field 9 as a varint, field 10 as eight bytes, field 11 as bytes, field 12 as four bytes
    let unknown = vec![
        0x48, 0x96, 0x01, 0x51, 1, 2, 3, 4, 5, 6, 7, 8, 0x5a, 2, 0xaa, 0xbb, 0x65, 1, 2, 3, 4,
    ];
    assert_eq!(read_value(&unknown), Ok(Value::default()));
    assert_eq!(read_request(&unknown), Ok(CommandRequest { data: None }));
    assert_eq!(
        read_response(&unknown),
        Ok(CommandResponse { status: 0, message: "".into(), values: vec![] })
    );
    // around a known field
    let mut bytes = unknown.clone();
    bytes.extend_from_slice(&[0x18, 7]);
    bytes.extend_from_slice(&unknown);
    assert_eq!(read_value(&bytes), Ok(7i64.into()));
    // a command that a request does not know is no command
    assert_eq!(read_request(&[0x2a, 3, 0x0a, 1, b'k']), Ok(CommandRequest { data: None }));
}

#[test]
fn later_fields_override_earlier_ones() {
    assert_eq!(read_value(&[0x18, 1, 0x28, 1]), Ok(true.into()));
    assert_eq!(read_value(&[0x28, 1, 0x18, 1]), Ok(1i64.into()));
    assert_eq!(read_value(&[0x0a, 1, b'a', 0x0a, 1, b'b']), Ok("b".into()));
    assert_eq!(merge_value_from(5i64.into(), &[]), Ok(5i64.into()));
    assert_eq!(merge_value_from(5i64.into(), &[0x48, 1]), Ok(5i64.into()));
    assert_eq!(merge_value_from(5i64.into(), &[0x28, 0]), Ok(false.into()));
    // get then del: the last command stands
    assert_eq!(
        read_request(&[0x12, 3, 0x0a, 1, b'a', 0x1a, 3, 0x0a, 1, b'b']),
        Ok(CommandRequest::new_del("b"))
    );
    // a response out of order, with the status twice
    assert_eq!(
        read_response(&[0x1a, 2, 0x28, 1, 0x08, 5, 0x12, 1, b'm', 0x1a, 0, 0x08, 6]),
        Ok(CommandResponse {
            status: 6,
            message: "m".into(),
            values: vec![true.into(), Value::default()]
        })
    );
}

#[test]
fn a_command_in_two_pieces_is_put_together() {
    // set { key: "k" } and then set { value: 3 }
    let bytes = [0x0a, 3, 0x0a, 1, b'k', 0x0a, 4, 0x12, 2, 0x18, 3];
    assert_eq!(read_request(&bytes), Ok(CommandRequest::new_set("k", 3i64.into())));
    // the value in two pieces: the later scalar stands; an empty second piece changes nothing
    let bytes = [0x0a, 4, 0x12, 2, 0x18, 3, 0x0a, 4, 0x12, 2, 0x28, 1];
    assert_eq!(read_request(&bytes), Ok(CommandRequest::new_set("", true.into())));
    let bytes = [0x0a, 4, 0x12, 2, 0x18, 3, 0x0a, 2, 0x12, 0];
    assert_eq!(read_request(&bytes), Ok(CommandRequest::new_set("", 3i64.into())));
    // a set after a get starts from nothing
    let bytes = [0x12, 3, 0x0a, 1, b'g', 0x0a, 0];
    assert_eq!(
        read_request(&bytes),
        Ok(CommandRequest { data: Some(Data::KvSet(KvSet { key: "".into(), value: None })) })
    );
    // a key in two pieces: the later one stands
    let bytes = [0x12, 3, 0x0a, 1, b'a', 0x12, 3, 0x0a, 1, b'b'];
    assert_eq!(read_request(&bytes), Ok(CommandRequest::new_get("b")));
    let bytes = [0x12, 3, 0x0a, 1, b'a', 0x12, 0];
    assert_eq!(read_request(&bytes), Ok(CommandRequest::new_get("a")));
}

#[test]
fn status_keeps_its_low_32_bits() {
    assert_eq!(
        read_response(&[0x08, 0x81, 0x80, 0x80, 0x80, 0x10]),
        Ok(CommandResponse { status: 1, message: "".into(), values: vec![] })
    );
}

#[test]
fn integer_and_bool_read_any_varint() {
    assert_eq!(
        read_value(&[0x18, 0xff, 0xff, 0xff, 0xff, 0xff, 0xff, 0xff, 0xff, 0xff, 0x01]),
        Ok((-1i64).into())
    );
    assert_eq!(read_value(&[0x28, 2]), Ok(true.into()));
    assert_eq!(read_value(&[0x28, 0x80, 0x00]), Ok(false.into()));
    // a varint may be longer than it has to be
    assert_eq!(read_value(&[0x18, 0x81, 0x00]), Ok(1i64.into()));
}

#[test]
fn malformed_bytes_are_refused() {
    let bad: Vec<Vec<u8>> = vec![
        vec![0x18],                    // a key and nothing behind it
        vec![0x80],                    // a varint that does not end
        vec![0x0a, 5, b'a'],           // a length past the end
        vec![0x21, 0, 0, 0],           // eight bytes cut short
        vec![0x00, 0x00],              // field number 0
        vec![0x1b],                    // a group starts
        vec![0x1c],                    // a group ends
        vec![0x1e, 0],                 // wire type 6
        vec![0x1f, 0],                 // wire type 7
        vec![0x0a, 1, 0xff],           // text that is no UTF-8
        vec![0x08, 1],                 // the text of a value as a varint
        vec![0x10, 1],                 // the bytes of a value as a varint
        vec![0x1a, 1, 0],              // the integer of a value as bytes
        vec![0x20, 1],                 // the float of a value as a varint
        vec![0x2a, 0],                 // the bool of a value as bytes
        vec![0x18, 0xff, 0xff, 0xff, 0xff, 0xff, 0xff, 0xff, 0xff, 0xff, 0x02], // more than 64 bits
        vec![0x18, 0x80, 0x80, 0x80, 0x80, 0x80, 0x80, 0x80, 0x80, 0x80, 0x80, 0x00], // eleven bytes
        vec![0x80, 0x80, 0x80, 0x80, 0x10, 0], // a key above 32 bits
    ];
    for bytes in bad {
        assert!(matches!(read_value(&bytes), Err(HikvError::DecodeError(_))), "{:?}", bytes);
    }
    assert!(matches!(read_request(&[0x08, 1]), Err(HikvError::DecodeError(_))));
    assert!(matches!(read_request(&[0x12, 2, 0x08, 1]), Err(HikvError::DecodeError(_))));
    assert!(matches!(read_request(&[0x0a, 3, 0x12, 1, 0x18]), Err(HikvError::DecodeError(_))));
    assert!(matches!(read_request(&[0x12, 3, 0x0a, 1, 0xc0]), Err(HikvError::DecodeError(_))));
    assert!(matches!(read_response(&[0x0a, 0]), Err(HikvError::DecodeError(_))));
    assert!(matches!(read_response(&[0x10, 0]), Err(HikvError::DecodeError(_))));
    assert!(matches!(read_response(&[0x18, 0]), Err(HikvError::DecodeError(_))));
    assert!(matches!(read_response(&[0x1a, 1, 0x18]), Err(HikvError::DecodeError(_))));
    assert!(matches!(read_response(&[0x12, 1, 0xff]), Err(HikvError::DecodeError(_))));
}

#[test]
fn fields_are_written_and_read() {
    let mut out = vec![0xee];
    put_varint_field(&mut out, 1, 300);
    put_bytes_field(&mut out, 2, b"ab");
    put_fixed64_field(&mut out, 16, &[1, 2, 3, 4, 5, 6, 7, 8]);
    append(&mut out, &[0x7d, 9, 9, 9, 9]);
    assert_eq!(
        out,
        vec![
            0xee, 0x08, 0xac, 0x02, 0x12, 2, b'a', b'b', 0x81, 0x01, 1, 2, 3, 4, 5, 6, 7, 8, 0x7d,
            9, 9, 9, 9
        ]
    );
    match read_field(&out, 1) {
        Ok((1, Chunk::Varint(300), 4)) => {}
        _ => panic!("varint field"),
    }
    match read_field(&out, 4) {
        Ok((2, Chunk::Bytes(6, 8), 8)) => {}
        _ => panic!("bytes field"),
    }
    match read_field(&out, 8) {
        Ok((16, Chunk::Fixed64(10), 18)) => {}
        _ => panic!("fixed64 field"),
    }
    match read_field(&out, 18) {
        Ok((15, Chunk::Fixed32(19), 23)) => {}
        _ => panic!("fixed32 field"),
    }
    assert!(read_field(&out, 23).is_err());
    assert!(read_field(&out, 22).is_err());
    let mut out = Vec::new();
    put_varint_field(&mut out, 0x1fff_ffff, u64::MAX);
    assert_eq!(
        out,
        vec![
            0xf8, 0xff, 0xff, 0xff, 0x0f, 0xff, 0xff, 0xff, 0xff, 0xff, 0xff, 0xff, 0xff, 0xff,
            0x01
        ]
    );
    match read_field(&out, 0) {
        Ok((0x1fff_ffff, Chunk::Varint(u64::MAX), 15)) => {}
        _ => panic!("largest field"),
    }
}

#[test]
fn varints_are_read_at_a_position() {
    let data = [0xff, 0x00, 0x7f, 0xac, 0x02, 0x80];
    assert_eq!(take_varint(&data, 0), Ok((127, 2)));
    assert_eq!(take_varint(&data, 1), Ok((0, 2)));
    assert_eq!(take_varint(&data, 2), Ok((127, 3)));
    assert_eq!(take_varint(&data, 3), Ok((300, 5)));
    assert!(matches!(take_varint(&data, 5), Err(HikvError::DecodeError(_))));
    assert!(matches!(take_varint(&data, 6), Err(HikvError::DecodeError(_))));
    let max = [0xff, 0xff, 0xff, 0xff, 0xff, 0xff, 0xff, 0xff, 0xff, 0x01];
    assert_eq!(take_varint(&max, 0), Ok((u64::MAX, 10)));
    let nine = [0xff, 0xff, 0xff, 0xff, 0xff, 0xff, 0xff, 0xff, 0x7f];
    assert_eq!(take_varint(&nine, 0), Ok(((1u64 << 63) - 1, 9)));
}

fn decode_detail(r: Result<Value, HikvError>) -> String {
    match r {
        Err(HikvError::DecodeError(detail)) => detail,
        other => panic!("{:?}", other),
    }
}

#[test]
fn decode_errors_say_what_is_wrong() {
    // what the varint reader says
    let detail = decode_detail(read_value(&[0x80]));
    assert!(detail.contains("invalid varint"), "{}", detail);
    let mut rest: &[u8] = &[0x80];
    let theirs = prost::encoding::decode_varint(&mut rest).unwrap_err().to_string();
    assert_eq!(detail, theirs);
    assert_eq!(decode_detail(read_value(&[0x18])), theirs);
    // what the message reader says
    assert_eq!(decode_detail(read_value(&[0x00, 0x00])), "invalid tag value: 0");
    assert_eq!(decode_detail(read_value(&[0x80, 0x80, 0x80, 0x80, 0x10, 0])), "invalid key value");
    assert_eq!(decode_detail(read_value(&[0x1b])), "invalid wire type value");
    assert_eq!(decode_detail(read_value(&[0x0a, 5, b'a'])), "buffer underflow");
    assert_eq!(decode_detail(read_value(&[0x21, 0, 0, 0])), "buffer underflow");
    assert_eq!(decode_detail(read_value(&[0x08, 1])), "invalid wire type");
    assert_eq!(
        decode_detail(read_value(&[0x0a, 1, 0xff])),
        "invalid string value: data is not UTF-8 encoded"
    );
    let e = read_value(&[0x0a, 1, 0xff]).unwrap_err();
    assert_eq!(
        e.to_string(),
        "Failed to decode protobuf message: invalid string value: data is not UTF-8 encoded"
    );
    let resp = CommandResponse::from(e);
    assert_eq!(resp.status, 500);
    assert!(resp.message.contains("data is not UTF-8 encoded"));
}
