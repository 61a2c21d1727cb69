use hikv::ae::dispatch;
use hikv::command_request::Data;
use hikv::store::memory::MemTable;
use hikv::{CommandRequest, CommandResponse, KvSet, Value};

fn assert_ok(ret: CommandResponse, values: &[Value]) {
    assert_eq!(ret.status, 200);
    assert_eq!(ret.message, "");
    assert_eq!(ret.values, values)
}

fn assert_err(ret: CommandResponse, code: u32, msg: &str) {
    assert_eq!(ret.status, code);
    assert!(ret.message.contains(msg));
    assert_eq!(ret.values, &[])
}

#[test]
fn should_work_set() {
    let mut store = MemTable::new();
    let cmd = CommandRequest::new_set("hello", "world".into());

    let ret = dispatch(cmd.clone(), &mut store);
    assert_ok(ret, &[Value::default()]);

    let ret = dispatch(cmd, &mut store);
    assert_ok(ret, &["world".into()]);

    let cmd = CommandRequest::new_set("age", 18.into());
    let ret = dispatch(cmd.clone(), &mut store);
    assert_ok(ret, &[Value::default()]);

    let ret = dispatch(cmd.clone(), &mut store);
    assert_ok(ret, &[18.into()]);
}

#[test]
fn should_work_get() {
    let mut store = MemTable::new();

    let cmd = CommandRequest::new_set("lang", "rust".into());
    dispatch(cmd, &mut store);

    let cmd = CommandRequest::new_get("lang");
    let ret = dispatch(cmd, &mut store);
    assert_ok(ret, &["rust".into()])
}

#[test]
fn should_work_with_non_exist_key_404() {
    let mut store = MemTable::new();

    let cmd = CommandRequest::new_get("language");
    let ret = dispatch(cmd, &mut store);
    assert_err(ret, 404, "Not Found");
}

#[test]
fn should_work_del_command() {
    let mut store = MemTable::new();

    let cmd = CommandRequest::new_del("hello");
    let ret = dispatch(cmd, &mut store);
    assert_err(ret, 404, "Not Found");

    let cmd = CommandRequest::new_set("hello", "world".into());
    dispatch(cmd, &mut store);

    let cmd = CommandRequest::new_del("hello");
    let ret = dispatch(cmd, &mut store);
    assert_ok(ret, &["world".into()])
}

#[test]
fn should_work_exist_command() {
    let mut store = MemTable::new();

    let cmd = CommandRequest::new_exist("country");
    let ret = dispatch(cmd, &mut store);
    assert_ok(ret, &[false.into()]);

    let cmd = CommandRequest::new_set("country", "china".into());
    dispatch(cmd, &mut store);

    let cmd = CommandRequest::new_exist("country");
    let ret = dispatch(cmd, &mut store);
    assert_ok(ret, &[true.into()]);
}

#[test]
fn request_without_command_is_answered_with_400() {
    let mut store = MemTable::new();
    let ret = dispatch(CommandRequest { data: None }, &mut store);
    assert_eq!(ret.status, 400);
    assert_eq!(ret.message, "Cannot parse command: request has not data");
    assert!(ret.values.is_empty());
}

#[test]
fn not_found_names_the_key() {
    let mut store = MemTable::new();
    let ret = dispatch(CommandRequest::new_get("language"), &mut store);
    assert_eq!(ret.status, 404);
    assert_eq!(ret.message, "Not Found value for key: language");
    assert_eq!(ret.values, &[]);
}

#[test]
fn del_then_get_is_not_found() {
    let mut store = MemTable::new();
    dispatch(CommandRequest::new_set("k", 1.into()), &mut store);
    assert_ok(dispatch(CommandRequest::new_get("k"), &mut store), &[1.into()]);
    assert_ok(dispatch(CommandRequest::new_del("k"), &mut store), &[1.into()]);
    assert_err(dispatch(CommandRequest::new_get("k"), &mut store), 404, "Not Found");
    assert_err(dispatch(CommandRequest::new_del("k"), &mut store), 404, "Not Found");
    assert_ok(dispatch(CommandRequest::new_exist("k"), &mut store), &[false.into()]);
}

#[test]
fn set_without_a_value_stores_the_empty_value() {
    let mut store = MemTable::new();
    let cmd = CommandRequest { data: Some(Data::KvSet(KvSet { key: "k".into(), value: None })) };
    assert_ok(dispatch(cmd, &mut store), &[Value::default()]);
    assert_ok(dispatch(CommandRequest::new_exist("k"), &mut store), &[true.into()]);
    assert_ok(dispatch(CommandRequest::new_get("k"), &mut store), &[Value::default()]);
}

#[test]
fn sets_on_distinct_keys_are_each_retrievable() {
    let mut store = MemTable::new();
    for i in 0..100i64 {
        let key = format!("key-{}", i);
        let ret = dispatch(CommandRequest::new_set(&key, i.into()), &mut store);
        assert_ok(ret, &[Value::default()]);
    }
    for i in 0..100i64 {
        let key = format!("key-{}", i);
        assert_ok(dispatch(CommandRequest::new_get(&key), &mut store), &[i.into()]);
    }
    // setting one key over and over leaves the last value, and each set sees the one before
    for i in 0..10i64 {
        let ret = dispatch(CommandRequest::new_set("same", (i + 1).into()), &mut store);
        if i == 0 {
            assert_ok(ret, &[Value::default()]);
        } else {
            assert_ok(ret, &[i.into()]);
        }
    }
    assert_ok(dispatch(CommandRequest::new_get("same"), &mut store), &[10.into()]);
}
