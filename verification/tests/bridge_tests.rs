use crazyradio2_bridge::bridge::{esb_check_address, radio_mode_check, sum_as_string};
use crazyradio2_bridge::error::Error;
use crazyradio2_bridge::float_bits::{int_to_bits, uint_to_bits};
use crazyradio2_bridge::json::{rpc_params_decode, rpc_result_encode};

#[test]
fn address_of_four_bytes_is_refused() {
    assert_eq!(
        esb_check_address(&[1, 2, 3, 4]),
        Err(Error::InvalidAddressLength)
    );
}

#[test]
fn address_of_six_bytes_is_refused() {
    assert_eq!(
        esb_check_address(&[1, 2, 3, 4, 5, 6]),
        Err(Error::InvalidAddressLength)
    );
}

#[test]
fn address_of_five_bytes_passes_through() {
    assert_eq!(esb_check_address(&[1, 2, 3, 4, 5]), Ok([1, 2, 3, 4, 5]));
}

#[test]
fn unknown_mode_is_refused() {
    let supported = vec!["esb".to_string(), "ble".to_string()];
    assert_eq!(
        radio_mode_check(&"nonexistent-mode".to_string(), &supported),
        Err(Error::UnknownMode)
    );
}

#[test]
fn supported_mode_is_accepted() {
    let supported = vec!["esb".to_string(), "ble".to_string()];
    assert_eq!(radio_mode_check(&"ble".to_string(), &supported), Ok(()));
}

#[test]
fn no_mode_is_accepted_from_an_empty_list() {
    assert_eq!(
        radio_mode_check(&"esb".to_string(), &Vec::new()),
        Err(Error::UnknownMode)
    );
}

#[test]
fn sums_format_in_decimal() {
    assert_eq!(sum_as_string(3, 4), "7");
    assert_eq!(sum_as_string(0, 0), "0");
    assert_eq!(sum_as_string(120, 3), "123");
    assert_eq!(sum_as_string(999999, 1), "1000000");
    assert_eq!(sum_as_string(usize::MAX, 0), usize::MAX.to_string());
}

#[test]
fn empty_address_is_refused() {
    assert_eq!(esb_check_address(&[]), Err(Error::InvalidAddressLength));
}

#[test]
fn empty_object_text_decodes() {
    assert!(rpc_params_decode("{}").is_ok());
}

#[test]
fn malformed_text_fails_with_params_decode() {
    match rpc_params_decode("{") {
        Err(Error::ParamsDecode(_)) => {},
        other => panic!("expected ParamsDecode, got {:?}", other),
    }
    match rpc_params_decode("") {
        Err(Error::ParamsDecode(_)) => {},
        other => panic!("expected ParamsDecode, got {:?}", other),
    }
}

#[test]
fn decoded_params_are_the_value_of_the_text() {
    let text = "{\"channel\": 42, \"on\": true, \"tag\": [null, \"x\"]}";
    let v = rpc_params_decode(text).expect("well-formed text decodes");
    let expect: serde_json::Value = serde_json::from_str(text).unwrap();
    assert_eq!(v, expect);
    let nested = rpc_params_decode("[1, [2, [3.5]], {\"k\": -4}]").unwrap();
    let expect_nested: serde_json::Value =
        serde_json::from_str("[1, [2, [3.5]], {\"k\": -4}]").unwrap();
    assert_eq!(nested, expect_nested);
}

#[test]
fn encoded_result_is_the_text_of_the_value() {
    let v: serde_json::Value = serde_json::from_str("{\"a\": [1, false, null]}").unwrap();
    let text = rpc_result_encode(&v).expect("encoding cannot fail");
    assert_eq!(text, serde_json::to_string(&v).unwrap());
}

#[test]
fn float_values_round_trip_through_the_text_path() {
    // Values whose best-effort decoding would come back one ulp off;
    // full-precision float parsing must return them bit for bit.
    for text in ["2.797683831331431e-255", "3.089900467300506e65", "0.1", "1e-310"] {
        let v = rpc_params_decode(text).expect("float text decodes");
        let encoded = rpc_result_encode(&v).expect("floats encode");
        let back = rpc_params_decode(&encoded).expect("emitted text decodes");
        assert_eq!(back, v, "text {}", text);
        assert_eq!(
            back.as_f64().unwrap().to_bits(),
            v.as_f64().unwrap().to_bits(),
            "text {}",
            text
        );
    }
}

#[test]
fn rpc_result_text_round_trips() {
    // A stubbed driver result for a version query: re-encoding it must
    // give text that decodes back to the very same value.
    let mut m = serde_json::Map::new();
    m.insert("major".to_string(), serde_json::Value::from(1u64));
    m.insert("minor".to_string(), serde_json::Value::from(0u64));
    let driver_result = serde_json::Value::Object(m);
    let text = rpc_result_encode(&driver_result).expect("objects encode");
    assert!(text.starts_with('{'));
    let back: serde_json::Value = serde_json::from_str(&text).expect("encoded text decodes");
    assert_eq!(back, driver_result);
    assert!(rpc_params_decode(&text).is_ok());
}

#[test]
fn integer_to_float_bits_matches_the_native_cast() {
    for n in [
        0u64,
        1,
        2,
        9,
        1023,
        (1u64 << 52) - 1,
        1u64 << 52,
        (1u64 << 53) - 1,
        1u64 << 53,
        (1u64 << 53) + 1,
        (1u64 << 53) + 2,
        (1u64 << 53) + 3,
        (1u64 << 60) + 12345,
        1234567890123456789,
        u64::MAX - 1,
        u64::MAX,
    ] {
        assert_eq!(uint_to_bits(n), (n as f64).to_bits(), "n = {}", n);
    }
    for i in [
        0i64,
        1,
        -1,
        -9,
        -1024,
        i64::MIN,
        i64::MAX,
        -(1i64 << 53) - 1,
        -1234567890123456789,
    ] {
        assert_eq!(int_to_bits(i), (i as f64).to_bits(), "i = {}", i);
    }
}
