use dtype_de::de::decode;
use dtype_de::de_ref::decode_ref;
use dtype_de::decoded::Decoded;
use dtype_de::error::{Error, Expected, Found};
use dtype_de::key::{
    find_field, find_variant, BorrowedCowStrDeserializer, KeyClass, KeyClassifier, KeyVisit,
    MapKeyDeserializer, StrVisit, UnitOnly,
};
use dtype_de::parse::{is_integer, parse_integer};
use dtype_de::shape::{Capabilities, Field, IntWidth, Shape, Variant, VariantKind};
use dtype_de::text::{number_token_text, raw_token_text};
use dtype_de::value::{DType, Number};
use std::borrow::Cow;

fn caps() -> Capabilities {
    Capabilities::none()
}

fn map_of(key: Shape) -> Shape {
    Shape::Mapping(Box::new(key), Box::new(Shape::Bool))
}

fn object_42() -> DType {
    DType::Object(vec![("42".to_string(), DType::Boolean(true))])
}

#[test]
fn integer_keyed_map_gets_integer_key() {
    let want = Ok(Decoded::Mapping(vec![(Decoded::Int(42), Decoded::Bool(true))]));
    assert_eq!(decode(object_42(), &map_of(Shape::Int(IntWidth::I32)), caps()), want);
    assert_eq!(decode_ref(&object_42(), &map_of(Shape::Int(IntWidth::I32)), caps()), want);
}

#[test]
fn unsigned_keyed_map_gets_unsigned_key() {
    let want = Ok(Decoded::Mapping(vec![(Decoded::UInt(42), Decoded::Bool(true))]));
    assert_eq!(decode(object_42(), &map_of(Shape::Int(IntWidth::U8)), caps()), want);
}

#[test]
fn string_keyed_map_gets_text_key() {
    let want = Ok(Decoded::Mapping(vec![(Decoded::Str("42".into()), Decoded::Bool(true))]));
    assert_eq!(decode(object_42(), &map_of(Shape::Str), caps()), want);
    assert_eq!(decode_ref(&object_42(), &map_of(Shape::Str), caps()), want);
}

#[test]
fn integer_keyed_map_refuses_other_text() {
    let value = DType::Object(vec![("forty".to_string(), DType::Boolean(true))]);
    assert_eq!(
        decode(value, &map_of(Shape::Int(IntWidth::I32)), caps()),
        Err(Error::TypeMismatch(Expected::Integer, Found::Str("forty".to_string())))
    );
}

#[test]
fn integer_key_out_of_width_falls_back_to_text() {
    let value = DType::Object(vec![("300".to_string(), DType::Boolean(true))]);
    assert_eq!(
        decode(value, &map_of(Shape::Int(IntWidth::U8)), caps()),
        Err(Error::TypeMismatch(Expected::Integer, Found::Str("300".to_string())))
    );
}

#[test]
fn optional_key_is_always_present() {
    let want = Ok(Decoded::Mapping(vec![(
        Decoded::Present(Box::new(Decoded::Str("42".into()))),
        Decoded::Bool(true),
    )]));
    assert_eq!(decode(object_42(), &map_of(Shape::Option(Box::new(Shape::Str))), caps()), want);
}

#[test]
fn key_as_unit_variant() {
    let shape = map_of(Shape::Enum(vec![
        Variant { name: "42".to_string(), kind: VariantKind::Unit },
        Variant { name: "n".to_string(), kind: VariantKind::Newtype(Shape::Bool) },
    ]));
    let want = Ok(Decoded::Mapping(vec![(
        Decoded::Variant("42".into(), Box::new(Decoded::Unit)),
        Decoded::Bool(true),
    )]));
    assert_eq!(decode(object_42(), &shape, caps()), want);
    let value = DType::Object(vec![("n".to_string(), DType::Boolean(true))]);
    assert_eq!(decode(value, &shape, caps()), Err(Error::MissingPayload));
    let value = DType::Object(vec![("z".to_string(), DType::Boolean(true))]);
    assert_eq!(decode(value, &shape, caps()), Err(Error::UnknownVariant("z".to_string())));
}

#[test]
fn key_against_other_shapes() {
    let key = || MapKeyDeserializer { key: Cow::Borrowed("ab") };
    assert_eq!(key().deserialize(&Shape::Bytes, caps()), Ok(Decoded::Bytes(vec![97, 98])));
    assert_eq!(key().deserialize(&Shape::Ignored, caps()), Ok(Decoded::Unit));
    assert_eq!(
        key().deserialize(&Shape::Any, caps()),
        Ok(Decoded::Value(DType::String("ab".to_string())))
    );
    assert_eq!(
        key().deserialize(&Shape::Bool, caps()),
        Err(Error::TypeMismatch(Expected::Bool, Found::Str("ab".to_string())))
    );
    assert_eq!(
        key().deserialize(&Shape::Unit, caps()),
        Err(Error::TypeMismatch(Expected::Unit, Found::Str("ab".to_string())))
    );
    assert_eq!(
        key().deserialize(&Shape::Tuple(vec![]), caps()),
        Err(Error::TypeMismatch(Expected::Sequence, Found::Str("ab".to_string())))
    );
    assert_eq!(
        key().deserialize(&Shape::Struct(vec![]), caps()),
        Err(Error::TypeMismatch(Expected::Struct, Found::Str("ab".to_string())))
    );
}

#[test]
fn wide_key_needs_capability() {
    let key = || MapKeyDeserializer { key: Cow::Borrowed("340282366920938463463374607431768211455") };
    assert_eq!(key().deserialize(&Shape::Int(IntWidth::U128), caps()), Err(Error::Unsupported));
    let wide = Capabilities { wide_integers: true, ..Capabilities::none() };
    assert_eq!(
        key().deserialize(&Shape::Int(IntWidth::U128), wide),
        Ok(Decoded::UInt(u128::MAX))
    );
    assert_eq!(
        key().deserialize(&Shape::Int(IntWidth::I128), wide),
        Err(Error::TypeMismatch(Expected::Integer, Found::Str("340282366920938463463374607431768211455".to_string())))
    );
}

#[test]
fn integer_fallback_keeps_borrowed_text_borrowed() {
    let text = String::from("abc");
    let key = MapKeyDeserializer { key: Cow::Borrowed(text.as_str()) };
    assert_eq!(
        key.deserialize_integer(IntWidth::I64),
        KeyVisit::Text(StrVisit::Borrowed("abc"))
    );
    let key = MapKeyDeserializer { key: Cow::Owned(text.clone()) };
    assert_eq!(
        key.deserialize_integer(IntWidth::I64),
        KeyVisit::Text(StrVisit::Owned("abc".to_string()))
    );
    let key = MapKeyDeserializer { key: Cow::Borrowed("-12") };
    assert_eq!(key.deserialize_integer(IntWidth::I64), KeyVisit::Integer(Decoded::Int(-12)));
    let key = MapKeyDeserializer { key: Cow::Borrowed("x") };
    assert_eq!(key.deserialize_any(), StrVisit::Borrowed("x"));
}

#[test]
fn cow_str_source() {
    let de = BorrowedCowStrDeserializer::new(Cow::Borrowed("a"));
    assert_eq!(de.deserialize_any(), StrVisit::Borrowed("a"));
    let de = BorrowedCowStrDeserializer::new(Cow::Owned("a".to_string()));
    assert_eq!(de.deserialize_any(), StrVisit::Owned("a".to_string()));
    let variants = vec![Variant { name: "a".to_string(), kind: VariantKind::Unit }];
    let de = BorrowedCowStrDeserializer::new(Cow::Borrowed("a"));
    assert_eq!(de.variant_seed(&variants), Ok((0, UnitOnly)));
    let de = BorrowedCowStrDeserializer::new(Cow::Borrowed("b"));
    assert_eq!(de.variant_seed(&variants), Err(Error::UnknownVariant("b".to_string())));
    let de = BorrowedCowStrDeserializer::new(Cow::Borrowed("a"));
    assert_eq!(
        de.deserialize_enum(&variants),
        Ok(Decoded::Variant("a".into(), Box::new(Decoded::Unit)))
    );
}

#[test]
fn unit_only_reads_only_unit() {
    assert_eq!(UnitOnly.unit_variant(), Ok(Decoded::Unit));
    assert_eq!(UnitOnly.newtype_variant_seed(&Shape::Bool), Err(Error::MissingPayload));
    assert_eq!(
        UnitOnly.tuple_variant(&vec![]),
        Err(Error::TypeMismatch(Expected::TupleVariant, Found::UnitVariant))
    );
    assert_eq!(
        UnitOnly.struct_variant(&vec![]),
        Err(Error::TypeMismatch(Expected::StructVariant, Found::UnitVariant))
    );
}

#[test]
fn parse_integer_follows_decimal_literals() {
    let int = |s: &str, w: IntWidth| parse_integer(s, w);
    assert_eq!(int("0", IntWidth::U8), Some(Decoded::UInt(0)));
    assert_eq!(int("255", IntWidth::U8), Some(Decoded::UInt(255)));
    assert_eq!(int("256", IntWidth::U8), None);
    assert_eq!(int("+7", IntWidth::U8), Some(Decoded::UInt(7)));
    assert_eq!(int("-0", IntWidth::U8), None);
    assert_eq!(int("-0", IntWidth::I8), Some(Decoded::Int(0)));
    assert_eq!(int("-128", IntWidth::I8), Some(Decoded::Int(-128)));
    assert_eq!(int("-129", IntWidth::I8), None);
    assert_eq!(int("127", IntWidth::I8), Some(Decoded::Int(127)));
    assert_eq!(int("128", IntWidth::I8), None);
    assert_eq!(int("0042", IntWidth::I16), Some(Decoded::Int(42)));
    assert_eq!(int("", IntWidth::I16), None);
    assert_eq!(int("+", IntWidth::I16), None);
    assert_eq!(int("-", IntWidth::I16), None);
    assert_eq!(int(" 1", IntWidth::I16), None);
    assert_eq!(int("1 ", IntWidth::I16), None);
    assert_eq!(int("1.0", IntWidth::I16), None);
    assert_eq!(int("1e3", IntWidth::I64), None);
    assert_eq!(int("\u{0661}", IntWidth::I64), None);
    assert_eq!(int("é1", IntWidth::I64), None);
    assert_eq!(
        int("-170141183460469231731687303715884105728", IntWidth::I128),
        Some(Decoded::Int(i128::MIN))
    );
    assert_eq!(int("-170141183460469231731687303715884105729", IntWidth::I128), None);
    assert_eq!(
        int("170141183460469231731687303715884105727", IntWidth::I128),
        Some(Decoded::Int(i128::MAX))
    );
    assert_eq!(int("340282366920938463463374607431768211456", IntWidth::U128), None);
    assert_eq!(
        int("18446744073709551615", IntWidth::U64),
        Some(Decoded::UInt(u64::MAX as u128))
    );
    assert_eq!(int("18446744073709551616", IntWidth::U64), None);
    assert_eq!(int("-9223372036854775808", IntWidth::I64), Some(Decoded::Int(i64::MIN as i128)));
    assert_eq!(int("65535", IntWidth::U16), Some(Decoded::UInt(65535)));
    assert_eq!(int("4294967296", IntWidth::U32), None);
    assert_eq!(int("-2147483648", IntWidth::I32), Some(Decoded::Int(-2147483648)));
}

#[test]
fn parse_integer_agrees_with_std() {
    let texts = [
        "0", "-0", "+0", "1", "-1", "+1", "127", "128", "-128", "-129", "255", "256", "00", "007",
        "", "+", "-", "++1", "--1", "+-1", "1+", "a", "1a", "0x10", "٣", "32767", "32768",
        "-32768", "-32769", "65535", "65536",
    ];
    for s in texts {
        assert_eq!(
            parse_integer(s, IntWidth::I8),
            s.parse::<i8>().ok().map(|v| Decoded::Int(v as i128)),
            "i8 {s:?}"
        );
        assert_eq!(
            parse_integer(s, IntWidth::U8),
            s.parse::<u8>().ok().map(|v| Decoded::UInt(v as u128)),
            "u8 {s:?}"
        );
        assert_eq!(
            parse_integer(s, IntWidth::I16),
            s.parse::<i16>().ok().map(|v| Decoded::Int(v as i128)),
            "i16 {s:?}"
        );
        assert_eq!(
            parse_integer(s, IntWidth::U16),
            s.parse::<u16>().ok().map(|v| Decoded::UInt(v as u128)),
            "u16 {s:?}"
        );
        assert_eq!(is_integer(s), s.parse::<i128>().is_ok(), "literal {s:?}");
    }
}

#[test]
fn is_integer_knows_no_bound() {
    assert!(is_integer("123456789012345678901234567890123456789012345678901234567890"));
    assert!(is_integer("-123456789012345678901234567890123456789012345678901234567890"));
    assert!(!is_integer("12345678901234567890123456789012345678901234567890.5"));
    assert!(!is_integer(""));
    assert!(!is_integer("-"));
}

#[test]
fn classifier_honours_tokens_only_with_capability() {
    let off = KeyClassifier { caps: Capabilities::none() };
    assert_eq!(
        off.visit_str(number_token_text()),
        KeyClass::Ordinary(number_token_text().to_string())
    );
    assert_eq!(
        off.visit_string(raw_token_text().to_string()),
        KeyClass::Ordinary(raw_token_text().to_string())
    );
    let number = KeyClassifier {
        caps: Capabilities { arbitrary_precision: true, ..Capabilities::none() },
    };
    assert_eq!(number.visit_str(number_token_text()), KeyClass::Number);
    assert_eq!(number.visit_string(number_token_text().to_string()), KeyClass::Number);
    assert_eq!(
        number.visit_str(raw_token_text()),
        KeyClass::Ordinary(raw_token_text().to_string())
    );
    let raw = KeyClassifier { caps: Capabilities { raw_capture: true, ..Capabilities::none() } };
    assert_eq!(raw.visit_str(raw_token_text()), KeyClass::RawDType);
    assert_eq!(raw.visit_string(raw_token_text().to_string()), KeyClass::RawDType);
    assert_eq!(
        raw.visit_str(number_token_text()),
        KeyClass::Ordinary(number_token_text().to_string())
    );
    assert_eq!(raw.visit_str("key"), KeyClass::Ordinary("key".to_string()));
    assert_ne!(number_token_text(), raw_token_text());
}

#[test]
fn finders_take_the_first_match() {
    let fields = vec![
        Field { name: "a".to_string(), shape: Shape::Bool },
        Field { name: "b".to_string(), shape: Shape::Bool },
        Field { name: "a".to_string(), shape: Shape::Str },
    ];
    assert_eq!(find_field(&fields, "a"), Some(0));
    assert_eq!(find_field(&fields, "b"), Some(1));
    assert_eq!(find_field(&fields, "c"), None);
    assert_eq!(find_field(&fields, ""), None);
    assert_eq!(find_field(&vec![], "a"), None);
    let variants = vec![
        Variant { name: "x".to_string(), kind: VariantKind::Unit },
        Variant { name: "xy".to_string(), kind: VariantKind::Unit },
    ];
    assert_eq!(find_variant(&variants, "xy"), Some(1));
    assert_eq!(find_variant(&variants, "x"), Some(0));
    assert_eq!(find_variant(&variants, "y"), None);
}

#[test]
fn negative_number_value_in_map() {
    let value = DType::Object(vec![("-7".to_string(), DType::Number(Number::NegInt(-7)))]);
    let shape = Shape::Mapping(
        Box::new(Shape::Int(IntWidth::I8)),
        Box::new(Shape::Int(IntWidth::I8)),
    );
    assert_eq!(
        decode(value, &shape, caps()),
        Ok(Decoded::Mapping(vec![(Decoded::Int(-7), Decoded::Int(-7))]))
    );
}
