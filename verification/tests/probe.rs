use dtype_de::de::decode;
use dtype_de::de_ref::decode_ref;
use dtype_de::decoded::Decoded;
use dtype_de::error::{Container, Error, Expected, Found};
use dtype_de::shape::{Capabilities, Shape};
use dtype_de::text::{number_token_text, raw_token_text};
use dtype_de::value::{DType, DateTime, Number};

fn sample() -> DType {
    DType::Object(vec![
        ("null".to_string(), DType::Null),
        ("bool".to_string(), DType::Boolean(true)),
        ("pos".to_string(), DType::Number(Number::PosInt(7))),
        ("neg".to_string(), DType::Number(Number::NegInt(-7))),
        ("float".to_string(), DType::Number(Number::Float(0x3ff8_0000_0000_0000))),
        ("text".to_string(), DType::String("héllo".to_string())),
        (
            "array".to_string(),
            DType::Array(vec![DType::Null, DType::Array(vec![]), DType::Object(vec![])]),
        ),
        ("when".to_string(), DType::DateTime(DateTime { seconds: 1, nanos: 2 })),
        ("z".to_string(), DType::Object(vec![("a".to_string(), DType::Boolean(false))])),
    ])
}

fn all_on() -> Capabilities {
    Capabilities { arbitrary_precision: true, raw_capture: true, wide_integers: true }
}

#[test]
fn probe_rebuilds_every_variant() {
    assert_eq!(DType::deserialize(sample(), Capabilities::none()), Ok(sample()));
    assert_eq!(DType::deserialize(sample(), all_on()), Ok(sample()));
    let value = sample();
    assert_eq!(DType::deserialize_ref(&value, Capabilities::none()), Ok(sample()));
    assert_eq!(value, sample());
}

#[test]
fn probe_rebuilds_each_scalar() {
    for make in [
        (|| DType::Null) as fn() -> DType,
        || DType::Boolean(false),
        || DType::Number(Number::PosInt(u64::MAX)),
        || DType::Number(Number::NegInt(i64::MIN)),
        || DType::Number(Number::Float(0)),
        || DType::String(String::new()),
        || DType::Array(vec![]),
        || DType::Object(vec![]),
        || DType::DateTime(DateTime { seconds: -1, nanos: 0 }),
    ] {
        assert_eq!(decode(make(), &Shape::Any, Capabilities::none()), Ok(Decoded::Value(make())));
        assert_eq!(
            decode_ref(&make(), &Shape::Any, Capabilities::none()),
            Ok(Decoded::Value(make()))
        );
    }
}

#[test]
fn probe_keeps_entry_order_and_first_entry() {
    let value = || {
        DType::Object(vec![
            ("b".to_string(), DType::Number(Number::PosInt(1))),
            ("a".to_string(), DType::Number(Number::PosInt(2))),
            ("c".to_string(), DType::Number(Number::PosInt(3))),
        ])
    };
    assert_eq!(DType::deserialize(value(), all_on()), Ok(value()));
}

fn capsule(token: &str, text: &str) -> DType {
    DType::Object(vec![(token.to_string(), DType::String(text.to_string()))])
}

#[test]
fn number_capsule_without_capability_is_a_map() {
    let value = || capsule(number_token_text(), "12");
    assert_eq!(DType::deserialize(value(), Capabilities::none()), Ok(value()));
    let raw_only = Capabilities { raw_capture: true, ..Capabilities::none() };
    assert_eq!(DType::deserialize(value(), raw_only), Ok(value()));
}

#[test]
fn number_capsule_with_capability_is_a_number() {
    let caps = Capabilities { arbitrary_precision: true, ..Capabilities::none() };
    assert_eq!(
        DType::deserialize(capsule(number_token_text(), "12"), caps),
        Ok(DType::Number(Number::PosInt(12)))
    );
    assert_eq!(
        DType::deserialize_ref(&capsule(number_token_text(), "-12"), caps),
        Ok(DType::Number(Number::NegInt(-12)))
    );
    assert_eq!(
        DType::deserialize(capsule(number_token_text(), "-0"), caps),
        Ok(DType::Number(Number::PosInt(0)))
    );
    assert_eq!(
        DType::deserialize(capsule(number_token_text(), "18446744073709551615"), caps),
        Ok(DType::Number(Number::PosInt(u64::MAX)))
    );
    assert_eq!(
        DType::deserialize(capsule(number_token_text(), "18446744073709551616"), caps),
        Err(Error::NumericRange)
    );
    assert_eq!(
        DType::deserialize(capsule(number_token_text(), "-9223372036854775809"), caps),
        Err(Error::NumericRange)
    );
    assert_eq!(
        DType::deserialize(capsule(number_token_text(), "1.5"), caps),
        Err(Error::NumericLoss)
    );
    assert_eq!(
        DType::deserialize(
            DType::Object(vec![(number_token_text().to_string(), DType::Null)]),
            caps
        ),
        Err(Error::TypeMismatch(Expected::Str, Found::Unit))
    );
}

#[test]
fn capsule_with_more_entries_is_not_drained() {
    let caps = all_on();
    let value = DType::Object(vec![
        (number_token_text().to_string(), DType::String("1".to_string())),
        ("more".to_string(), DType::Null),
    ]);
    assert_eq!(
        DType::deserialize(value, caps),
        Err(Error::ExcessElements(2, Container::Object))
    );
    let value = DType::Object(vec![
        (raw_token_text().to_string(), DType::String("1".to_string())),
        ("more".to_string(), DType::Null),
    ]);
    assert_eq!(
        DType::deserialize_ref(&value, caps),
        Err(Error::ExcessElements(2, Container::Object))
    );
}

#[test]
fn token_counts_only_as_first_key() {
    let value = || {
        DType::Object(vec![
            ("first".to_string(), DType::Null),
            (number_token_text().to_string(), DType::String("1".to_string())),
        ])
    };
    assert_eq!(DType::deserialize(value(), all_on()), Ok(value()));
}

#[test]
fn raw_capsule_keeps_text_untouched() {
    let caps = Capabilities { raw_capture: true, ..Capabilities::none() };
    assert_eq!(
        DType::deserialize(capsule(raw_token_text(), "{\"a\": [1, 2]}"), caps),
        Ok(DType::String("{\"a\": [1, 2]}".to_string()))
    );
    let value = || capsule(raw_token_text(), "[]");
    assert_eq!(DType::deserialize(value(), Capabilities::none()), Ok(value()));
    assert_eq!(
        DType::deserialize(
            DType::Object(vec![(raw_token_text().to_string(), DType::Array(vec![]))]),
            caps
        ),
        Err(Error::TypeMismatch(Expected::Str, Found::Sequence))
    );
}

#[test]
fn nested_capsule_is_replaced_in_place() {
    let caps = all_on();
    let value = DType::Array(vec![
        capsule(number_token_text(), "5"),
        DType::Object(vec![("k".to_string(), capsule(raw_token_text(), "x"))]),
    ]);
    assert_eq!(
        DType::deserialize(value, caps),
        Ok(DType::Array(vec![
            DType::Number(Number::PosInt(5)),
            DType::Object(vec![("k".to_string(), DType::String("x".to_string()))]),
        ]))
    );
}

#[test]
fn typed_map_does_not_look_for_capsules() {
    let shape = Shape::Mapping(Box::new(Shape::Str), Box::new(Shape::Str));
    assert_eq!(
        decode(capsule(number_token_text(), "5"), &shape, all_on()),
        Ok(Decoded::Mapping(vec![(
            Decoded::Str(number_token_text().into()),
            Decoded::Str("5".into()),
        )]))
    );
}

#[test]
fn ignored_discards_anything() {
    assert_eq!(decode(sample(), &Shape::Ignored, all_on()), Ok(Decoded::Unit));
    assert_eq!(decode_ref(&sample(), &Shape::Ignored, all_on()), Ok(Decoded::Unit));
    assert_eq!(decode(DType::Null, &Shape::Ignored, all_on()), Ok(Decoded::Unit));
    assert!(sample().is_human_readable());
}

#[test]
fn datetime_is_only_for_probes() {
    let when = || DType::DateTime(DateTime { seconds: 5, nanos: 6 });
    assert_eq!(
        decode(when(), &Shape::Str, Capabilities::none()),
        Err(Error::TypeMismatch(Expected::Str, Found::DateTime))
    );
    assert_eq!(
        decode(when(), &Shape::Option(Box::new(Shape::Any)), Capabilities::none()),
        Ok(Decoded::Present(Box::new(Decoded::Value(when()))))
    );
}
