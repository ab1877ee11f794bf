//! The structured values that calls carry, and the result of a call.

use vstd::prelude::*;

verus! {

/// A structured value as it arrives in a call and leaves in a reply.
#[derive(Debug, PartialEq, Eq)]
pub enum Value {
    Null,
    Boolean(bool),
    I32(i32),
    I64(i64),
    LargeInt,
    /// A 64-bit floating-point number, held as its bits.
    F64(u64),
    String(String),
    U8List(Vec<u8>),
    I32List(Vec<i32>),
    I64List(Vec<i64>),
    /// A list of 64-bit floating-point numbers, each held as its bits.
    F64List(Vec<u64>),
    List(Vec<Value>),
    /// A map, as the list of its entries. A key may occur more than once.
    Dict(Vec<(Value, Value)>),
}

/// What a `Value` holds, as plain data.
pub enum Datum {
    Null,
    Boolean(bool),
    I32(i32),
    I64(i64),
    LargeInt,
    F64(u64),
    Text(Seq<char>),
    U8List(Seq<u8>),
    I32List(Seq<i32>),
    I64List(Seq<i64>),
    F64List(Seq<u64>),
    List(Seq<Datum>),
    Dict(Seq<(Datum, Datum)>),
}

impl View for Value {
    type V = Datum;

    open spec fn view(&self) -> Datum
        decreases self,
    {
        match self {
            Value::Null => Datum::Null,
            Value::Boolean(b) => Datum::Boolean(*b),
            Value::I32(n) => Datum::I32(*n),
            Value::I64(n) => Datum::I64(*n),
            Value::LargeInt => Datum::LargeInt,
            Value::F64(bits) => Datum::F64(*bits),
            Value::String(text) => Datum::Text(text@),
            Value::U8List(items) => Datum::U8List(items@),
            Value::I32List(items) => Datum::I32List(items@),
            Value::I64List(items) => Datum::I64List(items@),
            Value::F64List(items) => Datum::F64List(items@),
            Value::List(items) => Datum::List(
                Seq::new(
                    items@.len(),
                    |i: int|
                        if 0 <= i < items@.len() {
                            items@[i].view()
                        } else {
                            Datum::Null
                        },
                ),
            ),
            Value::Dict(entries) => Datum::Dict(
                Seq::new(
                    entries@.len(),
                    |i: int|
                        if 0 <= i < entries@.len() {
                            (entries@[i].0.view(), entries@[i].1.view())
                        } else {
                            (Datum::Null, Datum::Null)
                        },
                ),
            ),
        }
    }
}

/// The outcome of a call: the value it returns, or an error with a code, a
/// message and details.
#[derive(Debug, PartialEq, Eq)]
pub enum CallResult {
    Success(Value),
    Failure { code: String, message: String, details: Value },
}

/// What a `CallResult` holds, as plain data.
pub enum Reply {
    Success(Datum),
    Failure { code: Seq<char>, message: Seq<char>, details: Datum },
}

impl View for CallResult {
    type V = Reply;

    open spec fn view(&self) -> Reply {
        match self {
            CallResult::Success(value) => Reply::Success(value@),
            CallResult::Failure { code, message, details } => Reply::Failure {
                code: code@,
                message: message@,
                details: details@,
            },
        }
    }
}

/// The error reply with the given code, an empty message and no details.
pub open spec fn failure_reply(code: Seq<char>) -> Reply {
    Reply::Failure { code, message: Seq::<char>::empty(), details: Datum::Null }
}

impl CallResult {
    /// The reply that carries no value.
    pub fn null() -> (reply: Self)
        ensures
            reply@ == Reply::Success(Datum::Null),
    {
        CallResult::Success(Value::Null)
    }

    /// The reply that carries a text.
    pub fn text(text: String) -> (reply: Self)
        ensures
            reply@ == Reply::Success(Datum::Text(text@)),
    {
        CallResult::Success(Value::String(text))
    }

    /// The error reply with the given code, an empty message and no details.
    pub fn failure(code: &str) -> (reply: Self)
        ensures
            reply@ == failure_reply(code@),
    {
        CallResult::Failure { code: code.to_owned(), message: String::new(), details: Value::Null }
    }
}

/// The view of a map, entry by entry.
pub proof fn lemma_dict_view(value: Value)
    requires
        value is Dict,
    ensures
        value@ is Dict,
        value@->Dict_0.len() == value->Dict_0@.len(),
        forall|i: int|
            0 <= i < value->Dict_0@.len() ==> #[trigger] value@->Dict_0[i] == (
                value->Dict_0@[i].0@,
                value->Dict_0@[i].1@,
            ),
{
    reveal_with_fuel(<Value as View>::view, 2);
}

} // verus!
