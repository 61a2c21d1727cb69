pub mod handler;
pub mod service;

use vstd::prelude::*;
use vstd::string::StringExecFns;
use crate::error::HikvError;
use crate::pb::abi::command_request::{Data, DataView};
use crate::pb::abi::value::ValueView;
use crate::pb::abi::{
    CommandRequest, CommandRequestView, CommandResponse, CommandResponseView, KvSetView, Value,
    ValueModel,
};
use crate::pb::{error_response, ok_response};
use crate::store::{Storage, Table};

verus! {

/// The reply to a command that asks for a key that is not there.
pub open spec fn not_found_response(key: Seq<char>) -> CommandResponseView {
    CommandResponseView {
        status: 404,
        message: "Not Found value for key: "@ + key,
        values: Seq::empty(),
    }
}

/// The reply to a request without a command.
pub open spec fn invalid_command_response() -> CommandResponseView {
    CommandResponseView {
        status: 400,
        message: "Cannot parse command: "@ + "request has not data"@,
        values: Seq::empty(),
    }
}

/// The value that a set command stores: its value, or the empty value where
/// it has none.
pub open spec fn value_to_store(s: KvSetView) -> ValueModel {
    match s.value {
        Some(v) => v,
        None => None,
    }
}

/// The table after a request was carried out on the table `t`: a set puts
/// its value under its key, a delete takes its key out, and nothing else
/// changes the table.
pub open spec fn table_after(t: Table, req: CommandRequestView) -> Table {
    match req {
        Some(DataView::KvSet(s)) => t.insert(s.key, value_to_store(s)),
        Some(DataView::Del(key)) => t.remove(key),
        _ => t,
    }
}

/// The reply to a request carried out on the table `t`.
///
/// A set answers with what was under the key before, or with the empty value
/// where nothing was. A get and a delete answer with what is under the key,
/// and with 404 where nothing is. An exist answers with whether something is
/// under the key. A request without a command is answered with 400.
pub open spec fn reply_to(t: Table, req: CommandRequestView) -> CommandResponseView {
    match req {
        None => invalid_command_response(),
        Some(DataView::KvSet(s)) => ok_response(
            seq![
                match t.get(s.key) {
                    Some(v) => v,
                    None => None,
                },
            ],
        ),
        Some(DataView::Get(key)) => match t.get(key) {
            Some(v) => ok_response(seq![v]),
            None => not_found_response(key),
        },
        Some(DataView::Del(key)) => match t.get(key) {
            Some(v) => ok_response(seq![v]),
            None => not_found_response(key),
        },
        Some(DataView::Exist(key)) => ok_response(seq![Some(ValueView::Bool(t.contains_key(key)))]),
    }
}

/// The reply to a set, given what the backend returned.
pub open spec fn set_reply(r: Result<Option<Value>, HikvError>) -> CommandResponseView {
    match r {
        Ok(Some(v)) => ok_response(seq![v@]),
        Ok(None) => ok_response(seq![None]),
        Err(e) => error_response(e),
    }
}

/// The reply to a get or a delete of `key`, given what the backend returned.
pub open spec fn fetch_reply(key: Seq<char>, r: Result<Option<Value>, HikvError>) -> CommandResponseView {
    match r {
        Ok(Some(v)) => ok_response(seq![v@]),
        Ok(None) => not_found_response(key),
        Err(e) => error_response(e),
    }
}

/// The reply to an exist, given what the backend returned.
pub open spec fn exist_reply(r: Result<bool, HikvError>) -> CommandResponseView {
    match r {
        Ok(there) => ok_response(seq![Some(ValueView::Bool(there))]),
        Err(e) => error_response(e),
    }
}

/// Whether `resp` is a reply that a set can get, whatever the backend
/// returns.
pub open spec fn may_answer_set(resp: CommandResponseView) -> bool {
    exists|r: Result<Option<Value>, HikvError>| resp == #[trigger] set_reply(r)
}

/// Whether `resp` is a reply that a get or a delete of `key` can get,
/// whatever the backend returns.
pub open spec fn may_answer_fetch(key: Seq<char>, resp: CommandResponseView) -> bool {
    exists|r: Result<Option<Value>, HikvError>| resp == #[trigger] fetch_reply(key, r)
}

/// Whether `resp` is a reply that an exist can get, whatever the backend
/// returns.
pub open spec fn may_answer_exist(resp: CommandResponseView) -> bool {
    exists|r: Result<bool, HikvError>| resp == #[trigger] exist_reply(r)
}

/// Whether `resp` is a reply that the request can get, whatever the backend
/// returns.
pub open spec fn possible_reply(req: CommandRequestView, resp: CommandResponseView) -> bool {
    match req {
        None => resp == invalid_command_response(),
        Some(DataView::KvSet(_)) => may_answer_set(resp),
        Some(DataView::Get(key)) => may_answer_fetch(key, resp),
        Some(DataView::Del(key)) => may_answer_fetch(key, resp),
        Some(DataView::Exist(_)) => may_answer_exist(resp),
    }
}

/// Whether carrying out `req` can have turned the table `before` into
/// `after` with the reply `resp`. Where the table is known, it and the reply
/// are determined.
pub open spec fn carried_out(
    before: Option<Table>,
    after: Option<Table>,
    req: CommandRequestView,
    resp: CommandResponseView,
) -> bool {
    &&& possible_reply(req, resp)
    &&& match before {
        Some(t) => after == Some(table_after(t, req)) && resp == reply_to(t, req),
        None => after is None,
    }
}

/// The reply to a set, from what the backend returned.
pub fn respond_set(r: Result<Option<Value>, HikvError>) -> (resp: CommandResponse)
    ensures
        resp@ == set_reply(r),
{
    match r {
        Ok(Some(v)) => CommandResponse::from(v),
        Ok(None) => CommandResponse::from(Value::default()),
        Err(e) => CommandResponse::from(e),
    }
}

/// The reply to a get or a delete of `key`, from what the backend returned.
pub fn respond_fetch(key: String, r: Result<Option<Value>, HikvError>) -> (resp: CommandResponse)
    ensures
        resp@ == fetch_reply(key@, r),
{
    match r {
        Ok(Some(v)) => CommandResponse::from(v),
        Ok(None) => CommandResponse::from(HikvError::NotFound(key)),
        Err(e) => CommandResponse::from(e),
    }
}

/// The reply to an exist, from what the backend returned.
pub fn respond_exist(r: Result<bool, HikvError>) -> (resp: CommandResponse)
    ensures
        resp@ == exist_reply(r),
{
    match r {
        Ok(there) => CommandResponse::from(Value::from(there)),
        Err(e) => CommandResponse::from(e),
    }
}

/// A command that can be carried out on a backend.
pub trait CommandHandler: Sized {
    /// The request that asks for this command.
    spec fn request(&self) -> CommandRequestView;

    /// Carries the command out on `store` and returns the reply.
    fn handle<S: Storage>(self, store: &mut S) -> (resp: CommandResponse)
        ensures
            carried_out(old(store).table(), final(store).table(), self.request(), resp@),
    ;
}

/// Carries the command of `req` out on `store` and returns the reply. A
/// request without a command is answered with 400.
pub fn dispatch<S: Storage>(req: CommandRequest, store: &mut S) -> (resp: CommandResponse)
    ensures
        carried_out(old(store).table(), final(store).table(), req@, resp@),
{
    match req.data {
        Some(Data::Get(param)) => param.handle(store),
        Some(Data::KvSet(param)) => param.handle(store),
        Some(Data::Del(param)) => param.handle(store),
        Some(Data::Exist(param)) => param.handle(store),
        None => CommandResponse::from(
            HikvError::InvalidCommand(String::from_str("request has not data")),
        ),
    }
}

/// The request that sets `key` to `value`.
pub open spec fn set_request(key: Seq<char>, value: ValueModel) -> CommandRequestView {
    Some(DataView::KvSet(KvSetView { key, value: Some(value) }))
}

/// A set always succeeds, and answers with what was under the key before:
/// the empty value on a key that was not there, and the value of the first
/// set when the same key is set again.
pub proof fn lemma_set_returns_previous(t: Table, key: Seq<char>, first: ValueModel, second: ValueModel)
    ensures
        table_after(t, set_request(key, first)).get(key) == Some(first),
        !t.contains_key(key) ==> reply_to(t, set_request(key, first)) == ok_response(seq![None]),
        t.contains_key(key) ==> reply_to(t, set_request(key, first)) == ok_response(seq![t[key]]),
        reply_to(table_after(t, set_request(key, first)), set_request(key, second)) == ok_response(
            seq![first],
        ),
{
}

/// A get or a delete of a key that is not there is answered with status 404,
/// a message that starts with "Not Found", and no values.
pub proof fn lemma_absent_key_not_found(t: Table, key: Seq<char>)
    requires
        !t.contains_key(key),
    ensures
        reply_to(t, Some(DataView::Get(key))) == not_found_response(key),
        reply_to(t, Some(DataView::Del(key))) == not_found_response(key),
        not_found_response(key).status == 404,
        not_found_response(key).values.len() == 0,
        "Not Found"@.is_prefix_of(not_found_response(key).message),
{
    reveal_strlit("Not Found");
    reveal_strlit("Not Found value for key: ");
    let message = not_found_response(key).message;
    assert(message.subrange(0, 9) =~= "Not Found"@);
}

/// An exist is answered with status 200 and a boolean: false for a key that
/// is not there, true once the key was set.
pub proof fn lemma_exist_tells_presence(t: Table, key: Seq<char>, value: ValueModel)
    ensures
        reply_to(t, Some(DataView::Exist(key))) == ok_response(
            seq![Some(ValueView::Bool(t.contains_key(key)))],
        ),
        reply_to(table_after(t, set_request(key, value)), Some(DataView::Exist(key)))
            == ok_response(seq![Some(ValueView::Bool(true))]),
{
}

/// After a delete the key is not there: a get of it is answered with 404,
/// whatever the table held.
pub proof fn lemma_del_removes_key(t: Table, key: Seq<char>)
    ensures
        !table_after(t, Some(DataView::Del(key))).contains_key(key),
        reply_to(table_after(t, Some(DataView::Del(key))), Some(DataView::Get(key)))
            == not_found_response(key),
{
}

/// What is set under one key stays there while other keys are set.
pub proof fn lemma_other_keys_untouched(t: Table, key: Seq<char>, other: Seq<char>, value: ValueModel)
    requires
        key != other,
    ensures
        table_after(t, set_request(other, value)).get(key) == t.get(key),
        table_after(t, Some(DataView::Del(other))).get(key) == t.get(key),
        reply_to(table_after(t, set_request(other, value)), Some(DataView::Get(key))) == reply_to(
            t,
            Some(DataView::Get(key)),
        ),
{
}

/// The table after the requests were carried out one after the other.
pub open spec fn table_after_all(t: Table, reqs: Seq<CommandRequestView>) -> Table
    decreases reqs.len(),
{
    if reqs.len() == 0 {
        t
    } else {
        table_after(table_after_all(t, reqs.drop_last()), reqs.last())
    }
}

/// The requests that set each of `keys` to the value that stands at the same
/// place in `values`.
pub open spec fn set_requests(keys: Seq<Seq<char>>, values: Seq<ValueModel>) -> Seq<
    CommandRequestView,
> {
    Seq::new(keys.len(), |i: int| set_request(keys[i], values[i]))
}

/// Sets on keys that all differ are each kept: after them, every one of the
/// keys holds the value it was set to, and a get of it is answered with that
/// value.
pub proof fn lemma_sets_on_distinct_keys_all_kept(
    t: Table,
    keys: Seq<Seq<char>>,
    values: Seq<ValueModel>,
    i: int,
)
    requires
        keys.len() == values.len(),
        0 <= i < keys.len(),
        forall|a: int, b: int| 0 <= a < b < keys.len() ==> keys[a] != keys[b],
    ensures
        table_after_all(t, set_requests(keys, values)).get(keys[i]) == Some(values[i]),
        reply_to(table_after_all(t, set_requests(keys, values)), Some(DataView::Get(keys[i])))
            == ok_response(seq![values[i]]),
    decreases keys.len(),
{
    let reqs = set_requests(keys, values);
    let n = keys.len() - 1;
    assert(reqs.drop_last() =~= set_requests(keys.drop_last(), values.drop_last()));
    assert(reqs.last() == set_request(keys[n], values[n]));
    if i < n {
        lemma_sets_on_distinct_keys_all_kept(t, keys.drop_last(), values.drop_last(), i);
    }
}

/// The text of an error is never empty.
pub proof fn lemma_error_text_not_empty(e: HikvError)
    ensures
        e.text().len() > 0,
{
    reveal_strlit("Internal error: ");
    reveal_strlit("Not Found value for key: ");
    reveal_strlit("Cannot parse command: ");
    reveal_strlit("Cannot convert value ");
    reveal_strlit("Cannot process command ");
    reveal_strlit("Failed to encode protobuf message: ");
    reveal_strlit("Failed to decode protobuf message: ");
    reveal_strlit("Failed to access sled db: ");
    reveal_strlit("I/O error: ");
    reveal_strlit("Failed to access rocksdb db: ");
    reveal_strlit("Frame is larger than max size");
}

/// The response that reports a failure of an engine or codec has status 500,
/// no values, and a message that ends with the text of that failure.
pub proof fn lemma_failure_reply_embeds_detail(e: HikvError)
    ensures
        e.detail() matches Some(detail) ==> {
            &&& error_response(e).status == 500
            &&& error_response(e).values.len() == 0
            &&& detail.is_suffix_of(error_response(e).message)
        },
{
    e.lemma_text_embeds_detail();
}

/// Every reply that a request can get has status 200 exactly if its message
/// is empty, and carries no values where its status is not 200.
pub proof fn lemma_reply_shape(req: CommandRequestView, resp: CommandResponseView)
    requires
        possible_reply(req, resp),
    ensures
        resp.status == 200 <==> resp.message.len() == 0,
        resp.status != 200 ==> resp.values.len() == 0,
        resp.status == 200 ==> resp.values.len() == 1,
{
    reveal_strlit("Not Found value for key: ");
    reveal_strlit("Cannot parse command: ");
    match req {
        None => {},
        Some(DataView::KvSet(_)) => {
            let r = choose|r: Result<Option<Value>, HikvError>| resp == #[trigger] set_reply(r);
            if let Err(e) = r {
                lemma_error_text_not_empty(e);
            }
        },
        Some(DataView::Get(key)) => {
            let r = choose|r: Result<Option<Value>, HikvError>|
                resp == #[trigger] fetch_reply(key, r);
            if let Err(e) = r {
                lemma_error_text_not_empty(e);
            }
        },
        Some(DataView::Del(key)) => {
            let r = choose|r: Result<Option<Value>, HikvError>|
                resp == #[trigger] fetch_reply(key, r);
            if let Err(e) = r {
                lemma_error_text_not_empty(e);
            }
        },
        Some(DataView::Exist(_)) => {
            let r = choose|r: Result<bool, HikvError>| resp == #[trigger] exist_reply(r);
            if let Err(e) = r {
                lemma_error_text_not_empty(e);
            }
        },
    }
}

} // verus!
