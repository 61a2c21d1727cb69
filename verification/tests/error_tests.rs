use bytes::Bytes;
use hikv::{value, CommandResponse, HikvError, Value};

#[test]
fn every_error_has_its_text() {
    assert_eq!(HikvError::Internal("boom".into()).to_string(), "Internal error: boom");
    assert_eq!(HikvError::NotFound("k".into()).to_string(), "Not Found value for key: k");
    assert_eq!(
        HikvError::InvalidCommand("request has not data".into()).to_string(),
        "Cannot parse command: request has not data"
    );
    assert_eq!(
        HikvError::ConvertError(Value::default(), "Integer").to_string(),
        "Cannot convert value \"Integer\" to Integer"
    );
    assert_eq!(
        HikvError::StorageError("get", "t".into(), "k".into(), "bad".into()).to_string(),
        "Cannot process command get with table: t, key: k. Error: bad"
    );
    assert_eq!(
        HikvError::EncodeError("no room".into()).to_string(),
        "Failed to encode protobuf message: no room"
    );
    assert_eq!(
        HikvError::DecodeError("invalid varint".into()).to_string(),
        "Failed to decode protobuf message: invalid varint"
    );
    assert_eq!(
        HikvError::SledError("IO error: disk".into()).to_string(),
        "Failed to access sled db: IO error: disk"
    );
    assert_eq!(HikvError::IoError("broken pipe".into()).to_string(), "I/O error: broken pipe");
    assert_eq!(
        HikvError::RocksError("corruption".into()).to_string(),
        "Failed to access rocksdb db: corruption"
    );
    assert_eq!(HikvError::SledError("".into()).to_string(), "Failed to access sled db: ");
    assert_eq!(HikvError::FrameError.to_string(), "Frame is larger than max size");
}

#[test]
fn errors_become_responses() {
    let resp = CommandResponse::from(HikvError::NotFound("k".into()));
    assert_eq!(resp.status, 404);
    assert_eq!(resp.message, "Not Found value for key: k");
    assert!(resp.values.is_empty());
    let resp = CommandResponse::from(HikvError::InvalidCommand("x".into()));
    assert_eq!(resp.status, 400);
    assert_eq!(resp.message, "Cannot parse command: x");
    for e in [
        HikvError::Internal("i".into()),
        HikvError::ConvertError(1.into(), "Boolean"),
        HikvError::StorageError("set", "t".into(), "k".into(), "e".into()),
        HikvError::EncodeError("what the encoder said".into()),
        HikvError::DecodeError("what the decoder said".into()),
        HikvError::SledError("what the engine said".into()),
        HikvError::IoError("what the stream said".into()),
        HikvError::RocksError("what the engine said".into()),
        HikvError::FrameError,
    ] {
        let text = e.to_string();
        let detail = match &e {
            HikvError::StorageError(_, _, _, d)
            | HikvError::EncodeError(d)
            | HikvError::DecodeError(d)
            | HikvError::SledError(d)
            | HikvError::IoError(d)
            | HikvError::RocksError(d) => d.clone(),
            _ => String::new(),
        };
        let resp: CommandResponse = e.into();
        assert_eq!(resp.status, 500);
        assert_eq!(resp.message, text);
        assert!(resp.message.ends_with(&detail));
        assert!(!resp.message.is_empty());
        assert!(resp.values.is_empty());
    }
}

#[test]
fn values_become_responses() {
    let resp = CommandResponse::from(Value::from(7i64));
    assert_eq!(resp.status, 200);
    assert_eq!(resp.message, "");
    assert_eq!(resp.values, vec![Value::from(7i64)]);
    let resp = CommandResponse::from(vec![Value::default(), true.into()]);
    assert_eq!(resp.status, 200);
    assert_eq!(resp.message, "");
    assert_eq!(resp.values, vec![Value::default(), true.into()]);
    let resp = CommandResponse::default();
    assert_eq!((resp.status, resp.message.as_str(), resp.values.len()), (0, "", 0));
}

#[test]
fn scalars_become_values() {
    assert_eq!(Value::from(true).value, Some(value::Value::Bool(true)));
    assert_eq!(Value::from("s".to_string()).value, Some(value::Value::String("s".into())));
    assert_eq!(Value::from("s").value, Some(value::Value::String("s".into())));
    assert_eq!(Value::from(-3i64).value, Some(value::Value::Integer(-3)));
    assert_eq!(Value::from(b"ab").value, Some(value::Value::Binary(vec![b'a', b'b'])));
    assert_eq!(Value::from(&[0u8; 0]).value, Some(value::Value::Binary(vec![])));
    assert_eq!(
        Value::from(Bytes::from_static(b"xyz")).value,
        Some(value::Value::Binary(b"xyz".to_vec()))
    );
    assert_eq!(Value::default().value, None);
}

#[test]
fn values_become_scalars_of_their_kind_only() {
    assert_eq!(i64::try_from(Value::from(5i64)), Ok(5));
    assert_eq!(
        i64::try_from(Value::from(true)),
        Err(HikvError::ConvertError(true.into(), "Integer"))
    );
    assert_eq!(
        i64::try_from(Value::default()),
        Err(HikvError::ConvertError(Value::default(), "Integer"))
    );
    assert_eq!(bool::try_from(Value::from(false)), Ok(false));
    assert_eq!(bool::try_from(Value::from(1i64)), Err(HikvError::ConvertError(1.into(), "Boolean")));
    assert_eq!(Bytes::try_from(Value::from(b"ab")), Ok(Bytes::from_static(b"ab")));
    assert_eq!(
        Bytes::try_from(Value::from("ab")),
        Err(HikvError::ConvertError("ab".into(), "Binary"))
    );
    assert_eq!(Vec::<u8>::try_from(Value::from("ab")), Ok(vec![0x0a, 2, b'a', b'b']));
    assert_eq!(Value::try_from(&[0x0a, 2, b'a', b'b'][..]), Ok("ab".into()));
    assert!(matches!(Value::try_from(&[0x0a, 2, b'a'][..]), Err(HikvError::DecodeError(_))));
}

#[test]
fn texts_with_fields_are_put_together_by_position() {
    let (command, table, key) = ("get", "t".to_string(), "k".to_string());
    assert_eq!(
        HikvError::StorageError(command, table.clone(), key.clone(), "bad".into()).to_string(),
        format!(
            "Cannot process command {_0} with table: {_1}, key: {_2}. Error: {_3}",
            _0 = command,
            _1 = table,
            _2 = key,
            _3 = "bad"
        )
    );
    assert_eq!(
        HikvError::ConvertError(Value::default(), "Float").to_string(),
        format!("Cannot convert value {:?} to {_1}", _1 = "Float")
    );
    assert_eq!(
        HikvError::ConvertError(1.into(), "a\"b\\c\n").to_string(),
        "Cannot convert value \"a\\\"b\\\\c\\n\" to a\"b\\c\n"
    );
}
