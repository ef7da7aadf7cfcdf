use dtype_de::de::decode;
use dtype_de::error::{Container, Error, Expected, Found};
use dtype_de::message::Wording;
use dtype_de::shape::{Capabilities, IntWidth, Shape};
use dtype_de::value::{DType, Number};

#[test]
fn type_mismatch_names_found_and_expected() {
    let cases = [
        (Found::Unit, "unit value"),
        (Found::Bool(true), "boolean `true`"),
        (Found::Unsigned(7), "integer `7`"),
        (Found::Signed(-7), "integer `-7`"),
        (Found::Float(0), "floating point number"),
        (Found::Str("a \"b\"\n".to_string()), "string \"a \\\"b\\\"\\n\""),
        (Found::Str(String::new()), "string \"\""),
        (Found::Unsigned(0), "integer `0`"),
        (Found::Unsigned(u64::MAX), "integer `18446744073709551615`"),
        (Found::Signed(i64::MIN), "integer `-9223372036854775808`"),
        (Found::Signed(5), "integer `5`"),
        (Found::Bool(false), "boolean `false`"),
        (Found::Sequence, "sequence"),
        (Found::Mapping, "map"),
        (Found::UnitVariant, "unit variant"),
        (Found::DateTime, "datetime"),
    ];
    for (found, text) in cases {
        assert_eq!(
            Error::TypeMismatch(Expected::Bool, found).message(),
            format!("invalid type: {text}, expected a boolean")
        );
    }
    let cases = [
        (Expected::Unit, "unit"),
        (Expected::Bool, "a boolean"),
        (Expected::Integer, "an integer"),
        (Expected::Float, "a floating point number"),
        (Expected::Str, "a string"),
        (Expected::Bytes, "a byte array"),
        (Expected::Sequence, "a sequence"),
        (Expected::Mapping, "a map"),
        (Expected::Struct, "a record"),
        (Expected::Enum, "string or map"),
        (Expected::TupleVariant, "tuple variant"),
        (Expected::StructVariant, "struct variant"),
    ];
    for (expected, text) in cases {
        assert_eq!(
            Error::TypeMismatch(expected, Found::Unit).message(),
            format!("invalid type: unit value, expected {text}")
        );
        assert_eq!(expected.name(), text);
    }
}

#[test]
fn other_messages() {
    assert_eq!(
        Error::ExcessElements(3, Container::Array).message(),
        "invalid length 3, expected fewer elements expected"
    );
    assert_eq!(
        Error::ExcessElements(1, Container::Object).message(),
        "invalid length 1, expected fewer elements expected"
    );
    assert_eq!(Error::MissingElement(2).message(), "invalid length 2, expected more elements");
    assert_eq!(Error::MissingValue.message(), "value is missing");
    assert_eq!(
        Error::InvalidVariantEncoding.message(),
        "invalid value: map, expected map with a single key"
    );
    assert_eq!(
        Error::MissingPayload.message(),
        "invalid type: unit variant, expected newtype variant"
    );
    assert_eq!(Error::UnknownVariant("Z".to_string()).message(), "unknown variant `Z`");
    assert_eq!(Error::MissingField("x".to_string()).message(), "missing field `x`");
    assert_eq!(Error::DuplicateField("x".to_string()).message(), "duplicate field `x`");
    assert_eq!(Error::NumericRange.message(), "number out of range");
    assert_eq!(Error::NumericLoss.message(), "number cannot be given without loss");
    assert_eq!(Error::Unsupported.message(), "128-bit integers are not enabled");
    assert_eq!(Container::Array.name(), "fewer elements expected");
    assert_eq!(Container::Object.name(), "fewer elements expected");
    assert_eq!(
        Error::ExcessElements(usize::MAX, Container::Array).message(),
        format!("invalid length {}, expected fewer elements expected", usize::MAX)
    );
    assert_eq!(Error::MissingElement(0).message(), "invalid length 0, expected more elements");
}

#[test]
fn error_of_a_decode_displays() {
    let value = DType::Array(vec![DType::Number(Number::PosInt(300))]);
    let shape = Shape::Sequence(Box::new(Shape::Int(IntWidth::U8)));
    let e = decode(value, &shape, Capabilities::none()).unwrap_err();
    assert_eq!(e.message(), "number out of range");
    let e = decode(DType::Boolean(false), &shape, Capabilities::none()).unwrap_err();
    assert_eq!(e.message(), "invalid type: boolean `false`, expected a sequence");
    assert_eq!(DType::Null.unexpected(), Found::Unit);
    assert_eq!(
        DType::String("abc".to_string()).invalid_type(Expected::Mapping),
        Error::TypeMismatch(Expected::Mapping, Found::Str("abc".to_string()))
    );
    assert_eq!(
        DType::String("abc".to_string()).into_invalid_type(Expected::Mapping),
        Error::TypeMismatch(Expected::Mapping, Found::Str("abc".to_string()))
    );
    assert_eq!(DType::String("abc".to_string()).unexpected(), Found::Str("abc".to_string()));
    assert_eq!(DType::Array(vec![DType::Null]).into_unexpected(), Found::Sequence);
    let e = decode(DType::String("héllo".to_string()), &shape, Capabilities::none()).unwrap_err();
    assert_eq!(e.message(), "invalid type: string \"héllo\", expected a sequence");
    assert_eq!(Found::Str("x".to_string()).wording(), Wording::Str("x"));
    assert_eq!(Found::Float(7).wording(), Wording::Other("floating point number"));
    assert_eq!(Found::DateTime.wording(), Wording::Other("datetime"));
}
