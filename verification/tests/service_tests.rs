use hikv::ae::service::{Change, Listener, ListenerMut, Notify, NotifyMut, Signal, Tell, Watch};
use hikv::store::sleddb::SledDb;
use hikv::{CommandRequest, CommandResponse, MemTable, Service, ServiceInner, Value};
use std::sync::atomic::{AtomicUsize, Ordering};
use std::sync::{Arc, Mutex};
use tempfile::tempdir;

fn assert_ok(ret: CommandResponse, values: &[Value]) {
    assert_eq!(ret.status, 200);
    assert_eq!(ret.message, "");
    assert_eq!(ret.values, values)
}

#[test]
fn should_work_service() {
    let mut service: Service = ServiceInner::new(MemTable::new()).into();

    let ret = service.execute(CommandRequest::new_set("name", "tom".into()));
    assert_ok(ret, &[Value::default()]);

    let ret = service.execute(CommandRequest::new_get("name"));
    assert_ok(ret, &["tom".into()]);
}

#[test]
fn service_is_shared_behind_a_lock() {
    let service: Service = ServiceInner::new(MemTable::new()).into();
    let service = Arc::new(Mutex::new(service));
    let cloned = service.clone();

    let ret = cloned.lock().unwrap().execute(CommandRequest::new_set("name", "tom".into()));
    assert_ok(ret, &[Value::default()]);

    let ret = service.lock().unwrap().execute(CommandRequest::new_get("name"));
    assert_ok(ret, &["tom".into()]);
}

fn received0(_cmd: &CommandRequest) {}

fn executed0(_resp: &CommandResponse) {}

fn before_reply0(mut resp: CommandResponse) -> CommandResponse {
    resp.status = 201;
    resp
}

fn after_reply0() {}

#[test]
fn should_work_event_register() {
    let mut service: Service = ServiceInner::new(MemTable::default())
        .fn_received(Box::new(Watch::new(|_: &CommandRequest| {})))
        .fn_received(Box::new(Watch::new(received0)))
        .fn_executed(Box::new(Watch::new(executed0)))
        .fn_before_reply(Box::new(Change::new(before_reply0)))
        .fn_after_reply(Box::new(Tell::new(after_reply0)))
        .into();

    let ret = service.execute(CommandRequest::new_set("k1", "v1".into()));
    assert_eq!(ret.status, 201);
    assert_eq!(ret.message, "");
    assert_eq!(ret.values, vec![Value::default()]);
}

fn add_one(mut resp: CommandResponse) -> CommandResponse {
    resp.status += 1;
    resp.message.push('a');
    resp
}

fn double(mut resp: CommandResponse) -> CommandResponse {
    resp.status *= 2;
    resp.message.push('d');
    resp
}

#[test]
fn before_reply_hooks_run_in_the_order_they_were_added() {
    let mut service: Service = ServiceInner::new(MemTable::new())
        .fn_before_reply(Box::new(Change::new(add_one as fn(CommandResponse) -> CommandResponse)))
        .fn_before_reply(Box::new(Change::new(double as fn(CommandResponse) -> CommandResponse)))
        .into();
    let ret = service.execute(CommandRequest::new_exist("k"));
    assert_eq!(ret.status, (200 + 1) * 2);
    assert_eq!(ret.message, "ad");
    assert_eq!(ret.values, vec![false.into()]);

    let mut service: Service = ServiceInner::new(MemTable::new())
        .fn_before_reply(Box::new(Change::new(double)))
        .fn_before_reply(Box::new(Change::new(add_one)))
        .fn_before_reply(Box::new(Change::new(add_one)))
        .into();
    let ret = service.execute(CommandRequest::new_get("k"));
    assert_eq!(ret.status, 404 * 2 + 2);
    assert_eq!(ret.message, "Not Found value for key: kdaa");
}

struct Recorder {
    name: &'static str,
    log: Arc<Mutex<Vec<String>>>,
}

impl Listener<CommandRequest> for Recorder {
    fn call(&self, arg: &CommandRequest) {
        self.log.lock().unwrap().push(format!("{} request {:?}", self.name, arg.data.is_some()));
    }
}

impl Listener<CommandResponse> for Recorder {
    fn call(&self, arg: &CommandResponse) {
        self.log.lock().unwrap().push(format!("{} response {}", self.name, arg.status));
    }
}

impl ListenerMut<CommandResponse> for Recorder {
    fn call(&self, arg: &mut CommandResponse) {
        self.log.lock().unwrap().push(format!("{} change {}", self.name, arg.status));
        arg.status += 1;
    }
}

impl Signal for Recorder {
    fn call(&self) {
        self.log.lock().unwrap().push(format!("{} told", self.name));
    }
}

#[test]
fn listeners_follow_each_step_of_a_request() {
    let log = Arc::new(Mutex::new(Vec::new()));
    let rec = |name| Recorder { name, log: log.clone() };
    let mut service: Service = ServiceInner::new(MemTable::new())
        .fn_after_reply(Box::new(rec("a1")))
        .fn_before_reply(Box::new(rec("b1")))
        .fn_executed(Box::new(rec("e1")))
        .fn_received(Box::new(rec("r1")))
        .fn_received(Box::new(rec("r2")))
        .fn_executed(Box::new(rec("e2")))
        .fn_before_reply(Box::new(rec("b2")))
        .fn_after_reply(Box::new(rec("a2")))
        .into();
    let ret = service.execute(CommandRequest::new_get("missing"));
    assert_eq!(ret.status, 406);
    service.replied();
    assert_eq!(
        *log.lock().unwrap(),
        vec![
            "r1 request true",
            "r2 request true",
            "e1 response 404",
            "e2 response 404",
            "b1 change 404",
            "b2 change 405",
            "a1 told",
            "a2 told",
        ]
    );
}

#[test]
fn a_service_without_listeners_replies_as_the_backend_does() {
    let mut service: Service = ServiceInner::new(MemTable::new()).into();
    let ret = service.execute(CommandRequest { data: None });
    assert_eq!(ret.status, 400);
    service.replied();
    let ret = service.execute(CommandRequest::new_set("k", 1.into()));
    assert_ok(ret, &[Value::default()]);
    let ret = service.execute(CommandRequest::new_del("k"));
    assert_ok(ret, &[1.into()]);
}

#[test]
fn a_service_runs_on_a_sled_database() {
    let dir = tempdir().unwrap();
    let store = SledDb::new(sled::open(dir).unwrap());
    let mut service: Service<SledDb> = ServiceInner::new(store).into();
    assert_ok(service.execute(CommandRequest::new_set("k", "v".into())), &[Value::default()]);
    assert_ok(service.execute(CommandRequest::new_set("k", "w".into())), &["v".into()]);
    assert_ok(service.execute(CommandRequest::new_exist("k")), &[true.into()]);
    assert_ok(service.execute(CommandRequest::new_del("k")), &["w".into()]);
    assert_eq!(service.execute(CommandRequest::new_get("k")).status, 404);
}

#[test]
fn notify_calls_every_listener_in_order() {
    let count = Arc::new(AtomicUsize::new(0));
    let c1 = count.clone();
    let c2 = count.clone();
    let listeners: Vec<Box<dyn Listener<u32>>> = vec![
        Box::new(Watch::new(move |n: &u32| {
            assert_eq!(c1.fetch_add(*n as usize, Ordering::SeqCst), 0);
        })),
        Box::new(Watch::new(move |n: &u32| {
            assert_eq!(c2.fetch_add(*n as usize, Ordering::SeqCst), 5);
        })),
    ];
    Notify::notify(&listeners, &5);
    assert_eq!(count.load(Ordering::SeqCst), 10);

    let changers: Vec<Box<dyn ListenerMut<CommandResponse>>> =
        vec![Box::new(Change::new(add_one)), Box::new(Change::new(double))];
    let mut resp = CommandResponse { status: 1, message: String::new(), values: vec![] };
    NotifyMut::notify(&changers, &mut resp);
    assert_eq!(resp.status, 4);
    let none: Vec<Box<dyn ListenerMut<CommandResponse>>> = vec![];
    NotifyMut::notify(&none, &mut resp);
    assert_eq!(resp.status, 4);
}
