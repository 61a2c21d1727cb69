use vstd::prelude::*;
use crate::ae::{respond_exist, respond_fetch, respond_set, CommandHandler};
use crate::pb::abi::command_request::DataView;
use crate::pb::abi::{CommandRequestView, CommandResponse, Del, Exist, Get, KvSet, Value};
use crate::store::Storage;

verus! {

impl CommandHandler for KvSet {
    open spec fn request(&self) -> CommandRequestView {
        Some(DataView::KvSet(self@))
    }

    fn handle<S: Storage>(self, store: &mut S) -> (resp: CommandResponse) {
        let value = match self.value {
            Some(v) => v,
            None => Value::default(),
        };
        let r = store.set(self.key, value);
        respond_set(r)
    }
}

impl CommandHandler for Get {
    open spec fn request(&self) -> CommandRequestView {
        Some(DataView::Get(self@))
    }

    fn handle<S: Storage>(self, store: &mut S) -> (resp: CommandResponse) {
        let r = store.get(self.key.as_str());
        respond_fetch(self.key, r)
    }
}

impl CommandHandler for Del {
    open spec fn request(&self) -> CommandRequestView {
        Some(DataView::Del(self@))
    }

    fn handle<S: Storage>(self, store: &mut S) -> (resp: CommandResponse) {
        let r = store.del(self.key.as_str());
        respond_fetch(self.key, r)
    }
}

impl CommandHandler for Exist {
    open spec fn request(&self) -> CommandRequestView {
        Some(DataView::Exist(self@))
    }

    fn handle<S: Storage>(self, store: &mut S) -> (resp: CommandResponse) {
        let r = store.contains(self.key.as_str());
        respond_exist(r)
    }
}

} // verus!
