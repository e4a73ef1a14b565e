use vstd::prelude::*;

verus! {

/// Mathematical model of a numeric payload.
///
/// Floating-point numbers appear only as their IEEE 754 binary64 bit
/// pattern, so the whole model is plain integer data.
#[verifier::ext_equal]
pub enum NumberModel {
    PosInt(u64),
    NegInt(i64),
    Float(u64),
}

/// Mathematical model of a structured value: the closed, six-variant
/// interchange type (null, boolean, number, string, array, object).
#[verifier::ext_equal]
pub enum ValueModel {
    Null,
    Bool(bool),
    Num(NumberModel),
    Str(Seq<char>),
    Arr(Seq<ValueModel>),
    Obj(Seq<(Seq<char>, ValueModel)>),
}

/// A numeric payload of a structured value.
///
/// A float is carried as the bit pattern of a finite binary64 number;
/// decoding to and from a native float happens outside this crate.
#[derive(Debug, Clone, PartialEq, Eq)]
pub enum Number {
    /// A non-negative integer.
    PosInt(u64),
    /// A negative integer; well-formed values hold only negatives here.
    NegInt(i64),
    /// The bit pattern of a finite binary64 number.
    Float(u64),
}

/// The canonical structured value: a closed recursive sum type used as
/// the interchange format between the host runtime and the radio driver.
#[derive(Debug, PartialEq, Eq)]
pub enum StructuredValue {
    Null,
    Bool(bool),
    Num(Number),
    Str(String),
    Arr(Vec<StructuredValue>),
    Obj(Vec<(String, StructuredValue)>),
}

impl View for Number {
    type V = NumberModel;

    open spec fn view(&self) -> NumberModel {
        match self {
            Number::PosInt(n) => NumberModel::PosInt(*n),
            Number::NegInt(i) => NumberModel::NegInt(*i),
            Number::Float(b) => NumberModel::Float(*b),
        }
    }
}

/// The model of a structured value: the same tree over sequences and
/// character strings.
pub open spec fn value_model(v: StructuredValue) -> ValueModel
    decreases v,
{
    match v {
        StructuredValue::Null => ValueModel::Null,
        StructuredValue::Bool(b) => ValueModel::Bool(b),
        StructuredValue::Num(n) => ValueModel::Num(n@),
        StructuredValue::Str(s) => ValueModel::Str(s@),
        StructuredValue::Arr(items) => ValueModel::Arr(
            Seq::new(
                items@.len(),
                |i: int|
                    if 0 <= i < items@.len() {
                        value_model(items@[i])
                    } else {
                        ValueModel::Null
                    },
            ),
        ),
        StructuredValue::Obj(pairs) => ValueModel::Obj(
            Seq::new(
                pairs@.len(),
                |i: int|
                    if 0 <= i < pairs@.len() {
                        (pairs@[i].0@, value_model(pairs@[i].1))
                    } else {
                        (Seq::empty(), ValueModel::Null)
                    },
            ),
        ),
    }
}

impl View for StructuredValue {
    type V = ValueModel;

    open spec fn view(&self) -> ValueModel {
        value_model(*self)
    }
}

/// The exponent field of a binary64 bit pattern, bits 52 through 62.
pub open spec fn exponent_field(bits: u64) -> u64 {
    (bits / 0x10000000000000) as u64 % 0x800
}

/// Whether a binary64 bit pattern denotes a finite number (neither an
/// infinity nor a NaN): its exponent field is not all ones.
pub open spec fn is_finite_bits(bits: u64) -> bool {
    exponent_field(bits) != 0x7ff
}

/// A well-formed numeric payload: a negative integer in `NegInt` and a
/// finite bit pattern in `Float`.
pub open spec fn number_wf(n: NumberModel) -> bool {
    match n {
        NumberModel::PosInt(_) => true,
        NumberModel::NegInt(i) => i < 0,
        NumberModel::Float(b) => is_finite_bits(b),
    }
}

/// A well-formed structured value: every numeric payload is well formed
/// and every object's keys are distinct.
pub open spec fn value_wf(v: ValueModel) -> bool
    decreases v,
{
    match v {
        ValueModel::Null => true,
        ValueModel::Bool(_) => true,
        ValueModel::Num(n) => number_wf(n),
        ValueModel::Str(_) => true,
        ValueModel::Arr(items) => forall|i: int|
            0 <= i < items.len() ==> value_wf(#[trigger] items[i]),
        ValueModel::Obj(pairs) => {
            &&& forall|i: int|
                0 <= i < pairs.len() ==> value_wf(#[trigger] pairs[i].1)
            &&& forall|i: int, j: int|
                0 <= i < j < pairs.len() ==> pairs[i].0 != pairs[j].0
        },
    }
}

/// A structured value that holds no `Num` anywhere: the fragment whose
/// host round trip is exact.
pub open spec fn number_free(v: ValueModel) -> bool
    decreases v,
{
    match v {
        ValueModel::Null => true,
        ValueModel::Bool(_) => true,
        ValueModel::Num(_) => false,
        ValueModel::Str(_) => true,
        ValueModel::Arr(items) => forall|i: int|
            0 <= i < items.len() ==> number_free(#[trigger] items[i]),
        ValueModel::Obj(pairs) => forall|i: int|
            0 <= i < pairs.len() ==> number_free(#[trigger] pairs[i].1),
    }
}

} // verus!
