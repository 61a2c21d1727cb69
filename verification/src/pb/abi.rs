use vstd::prelude::*;

pub mod command_request;
pub mod value;

verus! {

/// Model of a [`Value`]: the scalar it holds, if it holds one.
pub type ValueModel = Option<value::ValueView>;

/// A stored scalar, or nothing.
#[derive(Clone, Debug, PartialEq)]
pub struct Value {
    pub value: Option<value::Value>,
}

impl View for Value {
    type V = ValueModel;

    open spec fn view(&self) -> ValueModel {
        match self.value {
            Some(v) => Some(v@),
            None => None,
        }
    }
}

impl Default for Value {
    fn default() -> (r: Value)
        ensures
            r@ == None::<value::ValueView>,
    {
        Value { value: None }
    }
}

/// Views of the values in a list, in order.
pub open spec fn values_view(values: Seq<Value>) -> Seq<ValueModel> {
    Seq::new(values.len(), |i: int| values[i]@)
}

/// set key = value
#[derive(Clone, Debug, PartialEq)]
pub struct KvSet {
    pub key: String,
    pub value: Option<Value>,
}

pub struct KvSetView {
    pub key: Seq<char>,
    pub value: Option<ValueModel>,
}

impl View for KvSet {
    type V = KvSetView;

    open spec fn view(&self) -> KvSetView {
        KvSetView {
            key: self.key@,
            value: match self.value {
                Some(v) => Some(v@),
                None => None,
            },
        }
    }
}

/// get key
#[derive(Clone, Debug, PartialEq)]
pub struct Get {
    pub key: String,
}

impl View for Get {
    type V = Seq<char>;

    open spec fn view(&self) -> Seq<char> {
        self.key@
    }
}

/// delete key
#[derive(Clone, Debug, PartialEq)]
pub struct Del {
    pub key: String,
}

impl View for Del {
    type V = Seq<char>;

    open spec fn view(&self) -> Seq<char> {
        self.key@
    }
}

/// exist key
#[derive(Clone, Debug, PartialEq)]
pub struct Exist {
    pub key: String,
}

impl View for Exist {
    type V = Seq<char>;

    open spec fn view(&self) -> Seq<char> {
        self.key@
    }
}

/// A request: one command, or none.
#[derive(Clone, Debug, PartialEq)]
pub struct CommandRequest {
    pub data: Option<command_request::Data>,
}

pub type CommandRequestView = Option<command_request::DataView>;

impl View for CommandRequest {
    type V = CommandRequestView;

    open spec fn view(&self) -> CommandRequestView {
        match self.data {
            Some(d) => Some(d@),
            None => None,
        }
    }
}

/// A response: a status in the HTTP status space, a message that is empty on
/// success, and the values that the command yielded.
#[derive(Clone, Debug, PartialEq)]
pub struct CommandResponse {
    pub status: u32,
    pub message: String,
    pub values: Vec<Value>,
}

impl Default for CommandResponse {
    fn default() -> (r: CommandResponse)
        ensures
            r@ == (CommandResponseView { status: 0, message: Seq::empty(), values: Seq::empty() }),
    {
        let r = CommandResponse { status: 0, message: String::new(), values: Vec::new() };
        assert(r@.values =~= Seq::<ValueModel>::empty());
        r
    }
}

impl Default for CommandRequest {
    fn default() -> (r: CommandRequest)
        ensures
            r@ == None::<command_request::DataView>,
    {
        CommandRequest { data: None }
    }
}

pub struct CommandResponseView {
    pub status: u32,
    pub message: Seq<char>,
    pub values: Seq<ValueModel>,
}

impl View for CommandResponse {
    type V = CommandResponseView;

    open spec fn view(&self) -> CommandResponseView {
        CommandResponseView {
            status: self.status,
            message: self.message@,
            values: values_view(self.values@),
        }
    }
}

} // verus!
