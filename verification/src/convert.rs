use vstd::prelude::*;

use crate::error::Error;
use crate::float_bits::{f64_bits_of_int, f64_bits_of_uint, int_to_bits, lemma_lossy_above_53_bits, msb, uint_to_bits};
use crate::host::{convertible, host_model, host_wf, HostModel, HostValue};
use crate::value::{is_finite_bits, number_free, value_model, value_wf, Number, NumberModel, StructuredValue, ValueModel};

verus! {

/// What converting a host value yields, for a convertible host value.
///
/// The variants are tried in a fixed order: no-value, unsigned
/// integer, signed integer, float, boolean, text, ordered collection,
/// mapping. Here the host model keeps booleans apart from integers, so
/// a host boolean converts to `Bool` and never to a number. A float
/// whose bit pattern is an infinity or a NaN has no numeric payload
/// and converts to `Null`.
pub open spec fn spec_host_to_value(h: HostModel) -> ValueModel
    decreases h,
{
    match h {
        HostModel::Null => ValueModel::Null,
        HostModel::Uint(n) => ValueModel::Num(NumberModel::PosInt(n)),
        HostModel::Int(i) => if i >= 0 {
            ValueModel::Num(NumberModel::PosInt(i as u64))
        } else {
            ValueModel::Num(NumberModel::NegInt(i))
        },
        HostModel::Float(b) => if is_finite_bits(b) {
            ValueModel::Num(NumberModel::Float(b))
        } else {
            ValueModel::Null
        },
        HostModel::Bool(b) => ValueModel::Bool(b),
        HostModel::Str(s) => ValueModel::Str(s),
        HostModel::List(items) => ValueModel::Arr(
            Seq::new(
                items.len(),
                |i: int|
                    if 0 <= i < items.len() {
                        spec_host_to_value(items[i])
                    } else {
                        ValueModel::Null
                    },
            ),
        ),
        HostModel::Dict(pairs) => ValueModel::Obj(
            Seq::new(
                pairs.len(),
                |i: int|
                    if 0 <= i < pairs.len() {
                        (pairs[i].0, spec_host_to_value(pairs[i].1))
                    } else {
                        (Seq::empty(), ValueModel::Null)
                    },
            ),
        ),
        HostModel::Other(_) => ValueModel::Null,
    }
}

/// What converting a structured value back to a host value yields.
///
/// The conversion is total: every variant has a host representation.
/// Every number becomes a host float; an integer of more than 53
/// significant bits is therefore rounded, the documented lossy edge of
/// the numeric path.
pub open spec fn spec_value_to_host(v: ValueModel) -> HostModel
    decreases v,
{
    match v {
        ValueModel::Null => HostModel::Null,
        ValueModel::Bool(b) => HostModel::Bool(b),
        ValueModel::Num(n) => match n {
            NumberModel::PosInt(u) => HostModel::Float(f64_bits_of_uint(u)),
            NumberModel::NegInt(i) => HostModel::Float(f64_bits_of_int(i)),
            NumberModel::Float(b) => HostModel::Float(b),
        },
        ValueModel::Str(s) => HostModel::Str(s),
        ValueModel::Arr(items) => HostModel::List(
            Seq::new(
                items.len(),
                |i: int|
                    if 0 <= i < items.len() {
                        spec_value_to_host(items[i])
                    } else {
                        HostModel::Null
                    },
            ),
        ),
        ValueModel::Obj(pairs) => HostModel::Dict(
            Seq::new(
                pairs.len(),
                |i: int|
                    if 0 <= i < pairs.len() {
                        (pairs[i].0, spec_value_to_host(pairs[i].1))
                    } else {
                        (Seq::empty(), HostModel::Null)
                    },
            ),
        ),
    }
}

/// Index of the first list element that is not convertible; the length
/// of the list when every element is.
pub open spec fn first_bad_in_list(items: Seq<HostModel>) -> int
    decreases items.len(),
{
    if items.len() == 0 {
        0
    } else if !convertible(items[0]) {
        0
    } else {
        1 + first_bad_in_list(items.drop_first())
    }
}

/// Index of the first mapping entry whose value is not convertible;
/// the length of the mapping when every entry's value is.
pub open spec fn first_bad_in_dict(pairs: Seq<(Seq<char>, HostModel)>) -> int
    decreases pairs.len(),
{
    if pairs.len() == 0 {
        0
    } else if !convertible(pairs[0].1) {
        0
    } else {
        1 + first_bad_in_dict(pairs.drop_first())
    }
}

/// The host-runtime type name of the first unconvertible part of a
/// host value, in conversion order.
pub open spec fn first_unsupported(h: HostModel) -> Seq<char>
    decreases h,
{
    match h {
        HostModel::Other(name) => name,
        HostModel::List(items) => {
            let f = first_bad_in_list(items);
            if 0 <= f < items.len() {
                first_unsupported(items[f])
            } else {
                Seq::empty()
            }
        },
        HostModel::Dict(pairs) => {
            let f = first_bad_in_dict(pairs);
            if 0 <= f < pairs.len() {
                first_unsupported(pairs[f].1)
            } else {
                Seq::empty()
            }
        },
        _ => Seq::empty(),
    }
}

/// Converts a host value into the canonical structured value,
/// recursively; a single unconvertible part anywhere fails the whole
/// conversion with `UnsupportedType` naming the first such part.
#[verifier::loop_isolation(false)]
pub fn host_to_value(h: &HostValue) -> (r: Result<StructuredValue, Error>)
    ensures
        convertible(h@) ==> (r matches Ok(v) && v@ == spec_host_to_value(h@)),
        !convertible(h@) ==> (r matches Err(Error::UnsupportedType(name)) && name@
            == first_unsupported(h@)),
    decreases h,
{
    match h {
        HostValue::Null => Ok(StructuredValue::Null),
        HostValue::Uint(n) => Ok(StructuredValue::Num(Number::PosInt(*n))),
        HostValue::Int(i) => if *i >= 0 {
            Ok(StructuredValue::Num(Number::PosInt(*i as u64)))
        } else {
            Ok(StructuredValue::Num(Number::NegInt(*i)))
        },
        HostValue::Float(b) => if (*b / 0x10000000000000) % 0x800 != 0x7ff {
            Ok(StructuredValue::Num(Number::Float(*b)))
        } else {
            Ok(StructuredValue::Null)
        },
        HostValue::Bool(b) => Ok(StructuredValue::Bool(*b)),
        HostValue::Str(s) => Ok(StructuredValue::Str(s.clone())),
        HostValue::List(items) => {
            let ghost model = h@->List_0;
            let mut out: Vec<StructuredValue> = Vec::new();
            let mut j: usize = 0;
            while j < items.len()
                invariant
                    h@ == HostModel::List(model),
                    model.len() == items@.len(),
                    forall|i: int|
                        0 <= i < model.len() ==> model[i] == host_model(#[trigger] items@[i]),
                    j <= items@.len(),
                    out@.len() == j,
                    forall|k: int| 0 <= k < j ==> convertible(#[trigger] model[k]),
                    forall|k: int|
                        0 <= k < j ==> value_model(#[trigger] out@[k]) == spec_host_to_value(
                            model[k],
                        ),
                decreases items@.len() - j,
            {
                proof {
                    assert(decreases_to!(*h => h->List_0));
                    assert(decreases_to!(h->List_0 => h->List_0@));
                    assert(decreases_to!(h->List_0@ => h->List_0@[j as int]));
                }
                match host_to_value(&items[j]) {
                    Ok(v) => {
                        out.push(v);
                    },
                    Err(e) => {
                        proof {
                            assert(!convertible(model[j as int]));
                            lemma_first_bad_in_list(model);
                            let f = first_bad_in_list(model);
                            assert(!(f < j)) by {
                                if f < j {
                                    assert(convertible(model[f]));
                                }
                            }
                            assert(!(f > j)) by {
                                if f > j {
                                    assert(convertible(model[j as int]));
                                }
                            }
                            assert(first_unsupported(h@) == first_unsupported(model[j as int]));
                        }
                        return Err(e);
                    },
                }
                j = j + 1;
            }
            proof {
                assert(convertible(h@));
                let s1 = value_model(StructuredValue::Arr(out))->Arr_0;
                let s2 = spec_host_to_value(h@)->Arr_0;
                assert(value_model(StructuredValue::Arr(out)) == ValueModel::Arr(s1));
                assert(spec_host_to_value(h@) == ValueModel::Arr(s2));
                assert(s1.len() == out@.len());
                assert(s2.len() == model.len());
                assert forall|i: int| 0 <= i < s1.len() implies s1[i] == s2[i] by {
                    assert(s1[i] == value_model(out@[i]));
                    assert(s2[i] == spec_host_to_value(model[i]));
                }
                assert(s1 =~= s2);
                assert(StructuredValue::Arr(out)@ =~= spec_host_to_value(h@));
            }
            Ok(StructuredValue::Arr(out))
        },
        HostValue::Dict(pairs) => {
            let ghost model = h@->Dict_0;
            let mut out: Vec<(String, StructuredValue)> = Vec::new();
            let mut j: usize = 0;
            while j < pairs.len()
                invariant
                    h@ == HostModel::Dict(model),
                    model.len() == pairs@.len(),
                    forall|i: int| 0 <= i < model.len() ==> #[trigger] model[i]
                        == (pairs@[i].0@, host_model(pairs@[i].1)),
                    j <= pairs@.len(),
                    out@.len() == j,
                    forall|k: int| 0 <= k < j ==> convertible(#[trigger] model[k].1),
                    forall|k: int|
                        0 <= k < j ==> #[trigger] out@[k].0@ == model[k].0 && value_model(
                            out@[k].1,
                        ) == spec_host_to_value(model[k].1),
                decreases pairs@.len() - j,
            {
                let key = pairs[j].0.clone();
                proof {
                    assert(decreases_to!(*h => h->Dict_0));
                    assert(decreases_to!(h->Dict_0 => h->Dict_0@));
                    assert(decreases_to!(h->Dict_0@ => h->Dict_0@[j as int]));
                    assert(decreases_to!(h->Dict_0@[j as int] => h->Dict_0@[j as int].1));
                }
                match host_to_value(&pairs[j].1) {
                    Ok(v) => {
                        out.push((key, v));
                    },
                    Err(e) => {
                        proof {
                            assert(!convertible(model[j as int].1));
                            lemma_first_bad_in_dict(model);
                            let f = first_bad_in_dict(model);
                            assert(!(f < j)) by {
                                if f < j {
                                    assert(convertible(model[f].1));
                                }
                            }
                            assert(!(f > j)) by {
                                if f > j {
                                    assert(convertible(model[j as int].1));
                                }
                            }
                            assert(first_unsupported(h@) == first_unsupported(
                                model[j as int].1,
                            ));
                        }
                        return Err(e);
                    },
                }
                j = j + 1;
            }
            proof {
                assert(convertible(h@));
                let s1 = value_model(StructuredValue::Obj(out))->Obj_0;
                let s2 = spec_host_to_value(h@)->Obj_0;
                assert(value_model(StructuredValue::Obj(out)) == ValueModel::Obj(s1));
                assert(spec_host_to_value(h@) == ValueModel::Obj(s2));
                assert(s1.len() == out@.len());
                assert(s2.len() == model.len());
                assert forall|i: int| 0 <= i < s1.len() implies s1[i] == s2[i] by {
                    assert(s1[i] == (out@[i].0@, value_model(out@[i].1)));
                    assert(s2[i] == (model[i].0, spec_host_to_value(model[i].1)));
                }
                assert(s1 =~= s2);
                assert(StructuredValue::Obj(out)@ =~= spec_host_to_value(h@));
            }
            Ok(StructuredValue::Obj(out))
        },
        HostValue::Other(name) => Err(Error::UnsupportedType(name.clone())),
    }
}

/// Converts a structured value back into a host value, recursively.
///
/// Total: every well-formed structured value has a host
/// representation. Numbers all become host floats, the documented
/// lossy edge for integers of more than 53 significant bits.
#[verifier::loop_isolation(false)]
pub fn value_to_host(v: &StructuredValue) -> (r: HostValue)
    ensures
        r@ == spec_value_to_host(v@),
    decreases v,
{
    match v {
        StructuredValue::Null => HostValue::Null,
        StructuredValue::Bool(b) => HostValue::Bool(*b),
        StructuredValue::Num(n) => match n {
            Number::PosInt(u) => HostValue::Float(uint_to_bits(*u)),
            Number::NegInt(i) => HostValue::Float(int_to_bits(*i)),
            Number::Float(b) => HostValue::Float(*b),
        },
        StructuredValue::Str(s) => HostValue::Str(s.clone()),
        StructuredValue::Arr(items) => {
            let ghost model = v@->Arr_0;
            let mut out: Vec<HostValue> = Vec::new();
            let mut j: usize = 0;
            while j < items.len()
                invariant
                    v@ == ValueModel::Arr(model),
                    model.len() == items@.len(),
                    forall|i: int|
                        0 <= i < model.len() ==> model[i] == value_model(#[trigger] items@[i]),
                    j <= items@.len(),
                    out@.len() == j,
                    forall|k: int|
                        0 <= k < j ==> host_model(#[trigger] out@[k]) == spec_value_to_host(
                            model[k],
                        ),
                decreases items@.len() - j,
            {
                proof {
                    assert(decreases_to!(*v => v->Arr_0));
                    assert(decreases_to!(v->Arr_0 => v->Arr_0@));
                    assert(decreases_to!(v->Arr_0@ => v->Arr_0@[j as int]));
                }
                let converted = value_to_host(&items[j]);
                out.push(converted);
                j = j + 1;
            }
            proof {
                let s1 = host_model(HostValue::List(out))->List_0;
                let s2 = spec_value_to_host(v@)->List_0;
                assert(host_model(HostValue::List(out)) == HostModel::List(s1));
                assert(spec_value_to_host(v@) == HostModel::List(s2));
                assert(s1.len() == out@.len());
                assert(s2.len() == model.len());
                assert forall|i: int| 0 <= i < s1.len() implies s1[i] == s2[i] by {
                    assert(s1[i] == host_model(out@[i]));
                    assert(s2[i] == spec_value_to_host(model[i]));
                }
                assert(s1 =~= s2);
                assert(HostValue::List(out)@ =~= spec_value_to_host(v@));
            }
            HostValue::List(out)
        },
        StructuredValue::Obj(pairs) => {
            let ghost model = v@->Obj_0;
            let mut out: Vec<(String, HostValue)> = Vec::new();
            let mut j: usize = 0;
            while j < pairs.len()
                invariant
                    v@ == ValueModel::Obj(model),
                    model.len() == pairs@.len(),
                    forall|i: int| 0 <= i < model.len() ==> #[trigger] model[i]
                        == (pairs@[i].0@, value_model(pairs@[i].1)),
                    j <= pairs@.len(),
                    out@.len() == j,
                    forall|k: int|
                        0 <= k < j ==> #[trigger] out@[k].0@ == model[k].0 && host_model(
                            out@[k].1,
                        ) == spec_value_to_host(model[k].1),
                decreases pairs@.len() - j,
            {
                let key = pairs[j].0.clone();
                proof {
                    assert(decreases_to!(*v => v->Obj_0));
                    assert(decreases_to!(v->Obj_0 => v->Obj_0@));
                    assert(decreases_to!(v->Obj_0@ => v->Obj_0@[j as int]));
                    assert(decreases_to!(v->Obj_0@[j as int] => v->Obj_0@[j as int].1));
                }
                let converted = value_to_host(&pairs[j].1);
                out.push((key, converted));
                j = j + 1;
            }
            proof {
                let s1 = host_model(HostValue::Dict(out))->Dict_0;
                let s2 = spec_value_to_host(v@)->Dict_0;
                assert(host_model(HostValue::Dict(out)) == HostModel::Dict(s1));
                assert(spec_value_to_host(v@) == HostModel::Dict(s2));
                assert(s1.len() == out@.len());
                assert(s2.len() == model.len());
                assert forall|i: int| 0 <= i < s1.len() implies s1[i] == s2[i] by {
                    assert(s1[i] == (out@[i].0@, host_model(out@[i].1)));
                    assert(s2[i] == (model[i].0, spec_value_to_host(model[i].1)));
                }
                assert(s1 =~= s2);
                assert(HostValue::Dict(out)@ =~= spec_value_to_host(v@));
            }
            HostValue::Dict(out)
        },
    }
}

/// Round trip of the number-free fragment: a structured value built
/// without `Num` anywhere, taken to a host value and converted back,
/// comes back identical. Numbers are excluded because the host
/// representation of a number is a float, the documented lossy edge.
pub proof fn lemma_number_free_round_trip(v: ValueModel)
    requires
        number_free(v),
    ensures
        convertible(spec_value_to_host(v)),
        spec_host_to_value(spec_value_to_host(v)) == v,
    decreases v,
{
    match v {
        ValueModel::Null => {},
        ValueModel::Bool(_) => {},
        ValueModel::Num(_) => {},
        ValueModel::Str(_) => {},
        ValueModel::Arr(items) => {
            let h = spec_value_to_host(v)->List_0;
            assert(spec_value_to_host(v) == HostModel::List(h));
            assert(h.len() == items.len());
            assert forall|i: int| 0 <= i < h.len() implies convertible(#[trigger] h[i])
                && spec_host_to_value(h[i]) == items[i] by {
                assert(h[i] == spec_value_to_host(items[i]));
                assert(number_free(items[i]));
                lemma_number_free_round_trip(items[i]);
            }
            let back = spec_host_to_value(spec_value_to_host(v))->Arr_0;
            assert(spec_host_to_value(spec_value_to_host(v)) == ValueModel::Arr(back));
            assert(back.len() == items.len());
            assert forall|i: int| 0 <= i < back.len() implies back[i] == items[i] by {
                assert(back[i] == spec_host_to_value(h[i]));
            }
            assert(back =~= items);
        },
        ValueModel::Obj(pairs) => {
            let h = spec_value_to_host(v)->Dict_0;
            assert(spec_value_to_host(v) == HostModel::Dict(h));
            assert(h.len() == pairs.len());
            assert forall|i: int| 0 <= i < h.len() implies convertible(#[trigger] h[i].1)
                && h[i].0 == pairs[i].0 && spec_host_to_value(h[i].1) == pairs[i].1 by {
                assert(h[i] == (pairs[i].0, spec_value_to_host(pairs[i].1)));
                assert(number_free(pairs[i].1));
                lemma_number_free_round_trip(pairs[i].1);
            }
            let back = spec_host_to_value(spec_value_to_host(v))->Obj_0;
            assert(spec_host_to_value(spec_value_to_host(v)) == ValueModel::Obj(back));
            assert(back.len() == pairs.len());
            assert forall|i: int| 0 <= i < back.len() implies back[i] == pairs[i] by {
                assert(back[i] == (h[i].0, spec_host_to_value(h[i].1)));
            }
            assert(back =~= pairs);
        },
    }
}

/// Converting a well-formed, convertible host value yields a
/// well-formed structured value: negative integers land in `NegInt`,
/// only finite bit patterns land in `Float`, and the distinct keys of
/// every host mapping stay distinct in the object built from it.
pub proof fn lemma_conversion_well_formed(h: HostModel)
    requires
        host_wf(h),
        convertible(h),
    ensures
        value_wf(spec_host_to_value(h)),
    decreases h,
{
    match h {
        HostModel::List(items) => {
            let out = spec_host_to_value(h)->Arr_0;
            assert(spec_host_to_value(h) == ValueModel::Arr(out));
            assert forall|i: int| 0 <= i < out.len() implies value_wf(#[trigger] out[i]) by {
                assert(out[i] == spec_host_to_value(items[i]));
                assert(host_wf(items[i]) && convertible(items[i]));
                lemma_conversion_well_formed(items[i]);
            }
        },
        HostModel::Dict(pairs) => {
            let out = spec_host_to_value(h)->Obj_0;
            assert(spec_host_to_value(h) == ValueModel::Obj(out));
            assert forall|i: int| 0 <= i < out.len() implies value_wf(#[trigger] out[i].1) by {
                assert(out[i] == (pairs[i].0, spec_host_to_value(pairs[i].1)));
                assert(host_wf(pairs[i].1) && convertible(pairs[i].1));
                lemma_conversion_well_formed(pairs[i].1);
            }
            assert forall|i: int, j: int| 0 <= i < j < out.len() implies out[i].0 != out[j].0 by {
                assert(out[i].0 == pairs[i].0 && out[j].0 == pairs[j].0);
            }
        },
        _ => {},
    }
}

/// The numeric lossy edge, seen at the converter: every integer that
/// needs more than 53 significant bits converts to the very same host
/// value as some other integer, so the host cannot hand it back
/// exactly.
pub proof fn lemma_numeric_conversion_lossy(n: u64)
    requires
        msb(n as nat) > 52,
        (n as nat) % vstd::arithmetic::power2::pow2((msb(n as nat) - 52) as nat) != 0,
    ensures
        exists|m: u64|
            m != n && #[trigger] spec_value_to_host(ValueModel::Num(NumberModel::PosInt(m)))
                == spec_value_to_host(ValueModel::Num(NumberModel::PosInt(n))),
{
    lemma_lossy_above_53_bits(n);
    let m = choose|m: u64| m != n && #[trigger] f64_bits_of_uint(m) == f64_bits_of_uint(n);
    assert(spec_value_to_host(ValueModel::Num(NumberModel::PosInt(m)))
        == spec_value_to_host(ValueModel::Num(NumberModel::PosInt(n))));
}

/// When a list holds an unconvertible element, `first_bad_in_list`
/// points at the first one.
proof fn lemma_first_bad_in_list(items: Seq<HostModel>)
    requires
        exists|i: int| 0 <= i < items.len() && !convertible(#[trigger] items[i]),
    ensures
        0 <= first_bad_in_list(items) < items.len(),
        !convertible(items[first_bad_in_list(items)]),
        forall|j: int|
            0 <= j < first_bad_in_list(items) ==> convertible(#[trigger] items[j]),
    decreases items.len(),
{
    if items.len() == 0 {
    } else if !convertible(items[0]) {
    } else {
        let rest = items.drop_first();
        let i = choose|i: int| 0 <= i < items.len() && !convertible(#[trigger] items[i]);
        assert(rest[i - 1] == items[i]);
        lemma_first_bad_in_list(rest);
        assert forall|j: int| 0 <= j < first_bad_in_list(items) implies convertible(
            #[trigger] items[j],
        ) by {
            if j > 0 {
                assert(rest[j - 1] == items[j]);
            }
        }
        assert(items[first_bad_in_list(items)] == rest[first_bad_in_list(rest)]);
    }
}

/// When a mapping holds an unconvertible value, `first_bad_in_dict`
/// points at the first entry carrying one.
proof fn lemma_first_bad_in_dict(pairs: Seq<(Seq<char>, HostModel)>)
    requires
        exists|i: int| 0 <= i < pairs.len() && !convertible(#[trigger] pairs[i].1),
    ensures
        0 <= first_bad_in_dict(pairs) < pairs.len(),
        !convertible(pairs[first_bad_in_dict(pairs)].1),
        forall|j: int|
            0 <= j < first_bad_in_dict(pairs) ==> convertible(#[trigger] pairs[j].1),
    decreases pairs.len(),
{
    if pairs.len() == 0 {
    } else if !convertible(pairs[0].1) {
    } else {
        let rest = pairs.drop_first();
        let i = choose|i: int| 0 <= i < pairs.len() && !convertible(#[trigger] pairs[i].1);
        assert(rest[i - 1] == pairs[i]);
        lemma_first_bad_in_dict(rest);
        assert forall|j: int| 0 <= j < first_bad_in_dict(pairs) implies convertible(
            #[trigger] pairs[j].1,
        ) by {
            if j > 0 {
                assert(rest[j - 1] == pairs[j]);
            }
        }
        assert(pairs[first_bad_in_dict(pairs)] == rest[first_bad_in_dict(rest)]);
    }
}

} // verus!
