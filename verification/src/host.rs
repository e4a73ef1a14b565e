use vstd::prelude::*;

verus! {

/// Mathematical model of a dynamically typed host value, as the
/// capability view the converters inspect: each variant says what the
/// value can be read as.
#[verifier::ext_equal]
pub enum HostModel {
    Null,
    Bool(bool),
    Uint(u64),
    Int(i64),
    Float(u64),
    Str(Seq<char>),
    List(Seq<HostModel>),
    Dict(Seq<(Seq<char>, HostModel)>),
    Other(Seq<char>),
}

/// A dynamically typed host value, brought across the boundary as plain
/// data.
///
/// An integer that the host can hand over without loss appears as
/// `Uint` or `Int`; a float as the bit pattern of its binary64
/// representation; a value of any other host type as `Other` carrying
/// the host-runtime name of its type.
#[derive(Debug, PartialEq, Eq)]
pub enum HostValue {
    Null,
    Bool(bool),
    Uint(u64),
    Int(i64),
    Float(u64),
    Str(String),
    List(Vec<HostValue>),
    Dict(Vec<(String, HostValue)>),
    Other(String),
}

/// The model of a host value: the same tree over sequences and
/// character strings.
pub open spec fn host_model(h: HostValue) -> HostModel
    decreases h,
{
    match h {
        HostValue::Null => HostModel::Null,
        HostValue::Bool(b) => HostModel::Bool(b),
        HostValue::Uint(n) => HostModel::Uint(n),
        HostValue::Int(i) => HostModel::Int(i),
        HostValue::Float(b) => HostModel::Float(b),
        HostValue::Str(s) => HostModel::Str(s@),
        HostValue::List(items) => HostModel::List(
            Seq::new(
                items@.len(),
                |i: int|
                    if 0 <= i < items@.len() {
                        host_model(items@[i])
                    } else {
                        HostModel::Null
                    },
            ),
        ),
        HostValue::Dict(pairs) => HostModel::Dict(
            Seq::new(
                pairs@.len(),
                |i: int|
                    if 0 <= i < pairs@.len() {
                        (pairs@[i].0@, host_model(pairs@[i].1))
                    } else {
                        (Seq::empty(), HostModel::Null)
                    },
            ),
        ),
        HostValue::Other(name) => HostModel::Other(name@),
    }
}

impl View for HostValue {
    type V = HostModel;

    open spec fn view(&self) -> HostModel {
        host_model(*self)
    }
}

/// A host value every part of which has a structured-value
/// representation: it holds no `Other` anywhere.
pub open spec fn convertible(h: HostModel) -> bool
    decreases h,
{
    match h {
        HostModel::Other(_) => false,
        HostModel::List(items) => forall|i: int|
            0 <= i < items.len() ==> convertible(#[trigger] items[i]),
        HostModel::Dict(pairs) => forall|i: int|
            0 <= i < pairs.len() ==> convertible(#[trigger] pairs[i].1),
        _ => true,
    }
}

/// A well-formed host value: every mapping anywhere in it has
/// distinct keys, as a host mapping does.
pub open spec fn host_wf(h: HostModel) -> bool
    decreases h,
{
    match h {
        HostModel::List(items) => forall|i: int|
            0 <= i < items.len() ==> host_wf(#[trigger] items[i]),
        HostModel::Dict(pairs) => {
            &&& forall|i: int| 0 <= i < pairs.len() ==> host_wf(#[trigger] pairs[i].1)
            &&& forall|i: int, j: int|
                0 <= i < j < pairs.len() ==> pairs[i].0 != pairs[j].0
        },
        _ => true,
    }
}

} // verus!

