use vstd::prelude::*;
use crate::pb::abi::{Del, Exist, Get, KvSet, KvSetView};

verus! {

/// The command a request carries.
#[derive(Clone, Debug, PartialEq)]
pub enum Data {
    KvSet(KvSet),
    Get(Get),
    Del(Del),
    Exist(Exist),
}

/// Mathematical model of a command. The three commands that only name a key
/// are modelled by that key.
pub enum DataView {
    KvSet(KvSetView),
    Get(Seq<char>),
    Del(Seq<char>),
    Exist(Seq<char>),
}

impl View for Data {
    type V = DataView;

    open spec fn view(&self) -> DataView {
        match self {
            Data::KvSet(s) => DataView::KvSet(s@),
            Data::Get(g) => DataView::Get(g@),
            Data::Del(d) => DataView::Del(d@),
            Data::Exist(e) => DataView::Exist(e@),
        }
    }
}

} // verus!
