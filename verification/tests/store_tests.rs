use hikv::store::memory::MemTable;
use hikv::store::rocks_db::{after_write, bytes_to_put, convert, should_delete};
use hikv::store::sleddb::{flip, stored_value, SledDb};
use hikv::store::Storage;
use hikv::{HikvError, Value};
use tempfile::tempdir;

#[test]
fn should_work_memtable_basic() {
    let store = MemTable::new();
    test_basic_interface(store);
}

#[test]
fn should_work_sleddb_basic() {
    let dir = tempdir().unwrap();
    let store = SledDb::new(sled::open(dir).unwrap());
    test_basic_interface(store);
}

fn test_basic_interface(mut store: impl Storage) {
    let v = store.set("hello".into(), "world".into());
    assert!(v.unwrap().is_none());

    let v1 = store.set("hello".into(), "world0".into());
    assert_eq!(v1.unwrap(), Some("world".into()));

    let v = store.get("hello");
    assert_eq!(v.unwrap(), Some("world0".into()));

    assert_eq!(None, store.get("lang").unwrap());
    assert!(store.get("language").unwrap().is_none());

    assert_eq!(store.contains("hello").unwrap(), true);
    assert_eq!(store.contains("lang").unwrap(), false);
    assert_eq!(store.contains("language").unwrap(), false);

    let v = store.del("hello");
    assert_eq!(v.unwrap(), Some("world0".into()));

    assert_eq!(None, store.del("hello").unwrap());
    assert_eq!(None, store.del("lang").unwrap());
}

#[test]
fn memtable_default_is_empty() {
    let store = MemTable::default();
    assert_eq!(store.contains("anything").unwrap(), false);
    assert_eq!(store.get("anything").unwrap(), None);
}

#[test]
fn sleddb_keeps_values_of_every_kind() {
    let dir = tempdir().unwrap();
    let mut store = SledDb::new(sled::open(dir).unwrap());
    let values: Vec<Value> = vec![
        "text".into(),
        (-7i64).into(),
        true.into(),
        b"\x00\xff".into(),
        Value { value: Some(hikv::value::Value::Float(1.5f64.to_bits())) },
        Value::default(),
    ];
    for (i, v) in values.iter().enumerate() {
        let key = format!("k{}", i);
        assert_eq!(store.set(key.clone(), v.clone()).unwrap(), None);
        assert_eq!(store.get(&key).unwrap(), Some(v.clone()));
        assert_eq!(store.contains(&key).unwrap(), true);
    }
    for (i, v) in values.iter().enumerate() {
        let key = format!("k{}", i);
        assert_eq!(store.del(&key).unwrap(), Some(v.clone()));
        assert_eq!(store.contains(&key).unwrap(), false);
    }
}

#[test]
fn sleddb_reports_bytes_that_spell_no_value() {
    let dir = tempdir().unwrap();
    let db = sled::open(dir).unwrap();
    // field 3 (an integer) with a length-delimited payload
    db.insert("bad", vec![0x1a, 0x00]).unwrap();
    let mut store = SledDb::new(db);
    assert!(matches!(store.get("bad"), Err(HikvError::DecodeError(_))));
    assert_eq!(store.contains("bad"), Ok(true));
    assert!(matches!(store.set("bad".into(), 1.into()), Err(HikvError::DecodeError(_))));
    assert_eq!(store.get("bad"), Ok(Some(1.into())));
}

#[test]
fn flip_turns_inside_out() {
    assert_eq!(flip::<i32, String>(None), Ok(None));
    assert_eq!(flip::<i32, String>(Some(Ok(3))), Ok(Some(3)));
    assert_eq!(flip::<i32, String>(Some(Err("no".into()))), Err("no".to_string()));
}

#[test]
fn stored_value_reads_bytes() {
    assert_eq!(stored_value(None), Ok(None));
    assert_eq!(stored_value(Some(vec![0x18, 0x05])), Ok(Some(5.into())));
    assert_eq!(stored_value(Some(vec![])), Ok(Some(Value::default())));
    assert!(matches!(stored_value(Some(vec![0x18])), Err(HikvError::DecodeError(_))));
}

#[test]
fn convert_keeps_the_error_of_the_read() {
    assert_eq!(
        convert(Err(HikvError::RocksError("disk full".into()))),
        Err(HikvError::RocksError("disk full".into()))
    );
    assert_eq!(convert(Ok(None)), Ok(None));
    assert_eq!(convert(Ok(Some(vec![0x28, 0x01]))), Ok(Some(true.into())));
    assert!(matches!(convert(Ok(Some(vec![0xff]))), Err(HikvError::DecodeError(_))));
}

#[test]
fn a_set_writes_only_after_a_good_read() {
    let value: Value = "v".into();
    assert_eq!(bytes_to_put(&Ok(None), &value), Some(vec![0x0a, 0x01, b'v']));
    assert_eq!(bytes_to_put(&Ok(Some(vec![1, 2])), &value), Some(vec![0x0a, 0x01, b'v']));
    assert_eq!(bytes_to_put(&Err(HikvError::RocksError("e".into())), &value), None);
    assert!(should_delete(&Ok(None)));
    assert!(should_delete(&Ok(Some(vec![]))));
    assert!(!should_delete(&Err(HikvError::RocksError("e".into()))));
}

#[test]
fn after_a_write_the_read_is_reported() {
    assert_eq!(after_write(Ok(Some(vec![0x18, 0x02])), Ok(())), Ok(Some(2.into())));
    assert_eq!(after_write(Ok(None), Ok(())), Ok(None));
    assert_eq!(
        after_write(Ok(None), Err(HikvError::RocksError("w".into()))),
        Err(HikvError::RocksError("w".into()))
    );
    assert_eq!(
        after_write(Err(HikvError::IoError("r".into())), Ok(())),
        Err(HikvError::IoError("r".into()))
    );
    assert!(matches!(after_write(Ok(Some(vec![0x08])), Ok(())), Err(HikvError::DecodeError(_))));
}

#[test]
fn a_cloned_memtable_is_a_table_of_its_own() {
    let mut store = MemTable::new();
    store.set("k".into(), 1.into()).unwrap();
    let mut copy = store.clone();
    assert_eq!(copy.get("k").unwrap(), Some(1.into()));
    copy.set("k".into(), 2.into()).unwrap();
    copy.set("other".into(), 3.into()).unwrap();
    assert_eq!(store.get("k").unwrap(), Some(1.into()));
    assert_eq!(store.contains("other").unwrap(), false);
    assert_eq!(copy.get("k").unwrap(), Some(2.into()));
}
