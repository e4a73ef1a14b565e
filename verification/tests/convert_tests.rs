use crazyradio2_bridge::convert::{host_to_value, value_to_host};
use crazyradio2_bridge::error::Error;
use crazyradio2_bridge::float_bits::uint_to_bits;
use crazyradio2_bridge::host::HostValue;
use crazyradio2_bridge::value::{Number, StructuredValue};

fn sample_number_free() -> StructuredValue {
    StructuredValue::Obj(vec![
        (
            "a".to_string(),
            StructuredValue::Arr(vec![
                StructuredValue::Null,
                StructuredValue::Bool(true),
                StructuredValue::Str("x".to_string()),
            ]),
        ),
        ("b".to_string(), StructuredValue::Str(String::new())),
        (
            "c".to_string(),
            StructuredValue::Obj(vec![(
                "inner".to_string(),
                StructuredValue::Arr(vec![]),
            )]),
        ),
    ])
}

#[test]
fn round_trip_number_free_is_exact() {
    let v = sample_number_free();
    let h = value_to_host(&v);
    let back = host_to_value(&h).expect("number-free values convert back");
    assert_eq!(back, sample_number_free());
}

#[test]
fn round_trip_bool_stays_bool() {
    let v = StructuredValue::Bool(true);
    let h = value_to_host(&v);
    assert_eq!(h, HostValue::Bool(true));
    assert_eq!(host_to_value(&h).unwrap(), StructuredValue::Bool(true));
}

#[test]
fn unsupported_type_is_rejected() {
    let h = HostValue::Other("complex".to_string());
    match host_to_value(&h) {
        Err(Error::UnsupportedType(name)) => assert_eq!(name, "complex"),
        other => panic!("expected UnsupportedType, got {:?}", other),
    }
}

#[test]
fn unsupported_type_nested_fails_whole_conversion() {
    let h = HostValue::List(vec![
        HostValue::Uint(1),
        HostValue::Dict(vec![(
            "k".to_string(),
            HostValue::Other("set".to_string()),
        )]),
        HostValue::Other("tuple".to_string()),
    ]);
    match host_to_value(&h) {
        Err(Error::UnsupportedType(name)) => assert_eq!(name, "set"),
        other => panic!("expected UnsupportedType, got {:?}", other),
    }
}

#[test]
fn host_integers_convert_without_loss() {
    assert_eq!(
        host_to_value(&HostValue::Uint(7)).unwrap(),
        StructuredValue::Num(Number::PosInt(7))
    );
    assert_eq!(
        host_to_value(&HostValue::Uint(u64::MAX)).unwrap(),
        StructuredValue::Num(Number::PosInt(u64::MAX))
    );
    assert_eq!(
        host_to_value(&HostValue::Int(-3)).unwrap(),
        StructuredValue::Num(Number::NegInt(-3))
    );
    assert_eq!(
        host_to_value(&HostValue::Int(5)).unwrap(),
        StructuredValue::Num(Number::PosInt(5))
    );
}

#[test]
fn host_finite_float_keeps_its_bits() {
    let bits = 1.5f64.to_bits();
    assert_eq!(
        host_to_value(&HostValue::Float(bits)).unwrap(),
        StructuredValue::Num(Number::Float(bits))
    );
}

#[test]
fn host_nan_and_infinity_become_null() {
    assert_eq!(
        host_to_value(&HostValue::Float(f64::NAN.to_bits())).unwrap(),
        StructuredValue::Null
    );
    assert_eq!(
        host_to_value(&HostValue::Float(f64::INFINITY.to_bits())).unwrap(),
        StructuredValue::Null
    );
    assert_eq!(
        host_to_value(&HostValue::Float(f64::NEG_INFINITY.to_bits())).unwrap(),
        StructuredValue::Null
    );
}

#[test]
fn numbers_become_host_floats() {
    assert_eq!(
        value_to_host(&StructuredValue::Num(Number::PosInt(7))),
        HostValue::Float(7.0f64.to_bits())
    );
    assert_eq!(
        value_to_host(&StructuredValue::Num(Number::NegInt(-7))),
        HostValue::Float((-7.0f64).to_bits())
    );
    assert_eq!(
        value_to_host(&StructuredValue::Num(Number::PosInt(u64::MAX))),
        HostValue::Float((u64::MAX as f64).to_bits())
    );
    assert_eq!(
        value_to_host(&StructuredValue::Num(Number::NegInt(i64::MIN))),
        HostValue::Float((i64::MIN as f64).to_bits())
    );
}

#[test]
fn large_integer_round_trip_is_lossy() {
    let big: u64 = (1u64 << 53) + 1;
    assert_ne!((big as f64) as u64, big, "needs more than 53 significant bits");
    let h = value_to_host(&StructuredValue::Num(Number::PosInt(big)));
    assert_eq!(h, HostValue::Float((big as f64).to_bits()));
    let back = host_to_value(&h).unwrap();
    assert_eq!(back, StructuredValue::Num(Number::Float((big as f64).to_bits())));
    assert_ne!(back, StructuredValue::Num(Number::PosInt(big)));
}

#[test]
fn small_integer_round_trip_is_exact_as_float() {
    let n: u64 = 1u64 << 53;
    let h = value_to_host(&StructuredValue::Num(Number::PosInt(n)));
    assert_eq!(h, HostValue::Float((n as f64).to_bits()));
    assert_eq!((n as f64) as u64, n);
}

#[test]
fn distinct_large_integers_can_share_a_float() {
    let a: u64 = (1u64 << 60) + 3;
    let b: u64 = 1u64 << 60;
    assert_ne!(a, b);
    assert_eq!(uint_to_bits(a), uint_to_bits(b));
    assert_eq!((a as f64).to_bits(), (b as f64).to_bits());
    // an even integer needing 55 significant bits collides as well
    let c: u64 = (1u64 << 54) + 2;
    let e: u64 = 1u64 << 54;
    assert_ne!(c, e);
    assert_eq!(uint_to_bits(c), uint_to_bits(e));
    assert_eq!((c as f64).to_bits(), (e as f64).to_bits());
}
