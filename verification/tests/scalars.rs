use dtype_de::de::decode;
use dtype_de::de_ref::decode_ref;
use dtype_de::decoded::Decoded;
use dtype_de::error::{Error, Expected, Found};
use dtype_de::shape::{Capabilities, FloatWidth, IntWidth, Shape};
use dtype_de::value::{DType, DateTime, Number};

fn caps() -> Capabilities {
    Capabilities::none()
}

fn wide() -> Capabilities {
    Capabilities { wide_integers: true, ..Capabilities::none() }
}

fn pos(n: u64) -> DType {
    DType::Number(Number::PosInt(n))
}

fn neg(n: i64) -> DType {
    DType::Number(Number::NegInt(n))
}

#[test]
fn boolean_only_from_boolean() {
    assert_eq!(decode(DType::Boolean(true), &Shape::Bool, caps()), Ok(Decoded::Bool(true)));
    assert_eq!(decode_ref(&DType::Boolean(false), &Shape::Bool, caps()), Ok(Decoded::Bool(false)));
    assert_eq!(
        decode(DType::Null, &Shape::Bool, caps()),
        Err(Error::TypeMismatch(Expected::Bool, Found::Unit))
    );
    assert_eq!(
        decode(pos(1), &Shape::Bool, caps()),
        Err(Error::TypeMismatch(Expected::Bool, Found::Unsigned(1)))
    );
    assert_eq!(
        decode(neg(-1), &Shape::Bool, caps()),
        Err(Error::TypeMismatch(Expected::Bool, Found::Signed(-1)))
    );
    assert_eq!(
        decode(DType::Number(Number::Float(9)), &Shape::Bool, caps()),
        Err(Error::TypeMismatch(Expected::Bool, Found::Float(9)))
    );
    assert_eq!(
        decode(DType::String("true".to_string()), &Shape::Bool, caps()),
        Err(Error::TypeMismatch(Expected::Bool, Found::Str("true".to_string())))
    );
    assert_eq!(
        decode(DType::Array(vec![]), &Shape::Bool, caps()),
        Err(Error::TypeMismatch(Expected::Bool, Found::Sequence))
    );
    assert_eq!(
        decode(DType::Object(vec![]), &Shape::Bool, caps()),
        Err(Error::TypeMismatch(Expected::Bool, Found::Mapping))
    );
    assert_eq!(
        decode(DType::DateTime(DateTime { seconds: 0, nanos: 0 }), &Shape::Bool, caps()),
        Err(Error::TypeMismatch(Expected::Bool, Found::DateTime))
    );
}

#[test]
fn unit_only_from_null() {
    assert_eq!(decode(DType::Null, &Shape::Unit, caps()), Ok(Decoded::Unit));
    assert_eq!(
        decode_ref(&DType::Boolean(true), &Shape::Unit, caps()),
        Err(Error::TypeMismatch(Expected::Unit, Found::Bool(true)))
    );
}

#[test]
fn string_only_from_string() {
    assert_eq!(
        decode(DType::String("a".to_string()), &Shape::Str, caps()),
        Ok(Decoded::Str("a".into()))
    );
    assert_eq!(
        decode_ref(&DType::String(String::new()), &Shape::Str, caps()),
        Ok(Decoded::Str("".into()))
    );
    assert_eq!(
        decode(pos(1), &Shape::Str, caps()),
        Err(Error::TypeMismatch(Expected::Str, Found::Unsigned(1)))
    );
    assert_eq!(
        DType::String("id".to_string()).deserialize_identifier(),
        Ok(Decoded::Str("id".into()))
    );
    assert_eq!(
        DType::String("id".to_string()).deserialize_identifier_ref(),
        Ok(Decoded::Str("id".into()))
    );
}

#[test]
fn integers_narrow_to_each_width() {
    let cases: [(IntWidth, i128, i128); 8] = [
        (IntWidth::I8, i8::MIN as i128, i8::MAX as i128),
        (IntWidth::I16, i16::MIN as i128, i16::MAX as i128),
        (IntWidth::I32, i32::MIN as i128, i32::MAX as i128),
        (IntWidth::I64, i64::MIN as i128, i64::MAX as i128),
        (IntWidth::U8, 0, u8::MAX as i128),
        (IntWidth::U16, 0, u16::MAX as i128),
        (IntWidth::U32, 0, u32::MAX as i128),
        (IntWidth::U64, 0, u64::MAX as i128),
    ];
    let number = |v: i128| {
        if v >= 0 {
            Number::PosInt(v as u64)
        } else {
            Number::NegInt(v as i64)
        }
    };
    let out = |w: IntWidth, v: i128| {
        if matches!(w, IntWidth::U8 | IntWidth::U16 | IntWidth::U32 | IntWidth::U64) {
            Decoded::UInt(v as u128)
        } else {
            Decoded::Int(v)
        }
    };
    for (width, low, high) in cases {
        assert_eq!(number(low).narrow(width, caps()), Ok(out(width, low)));
        assert_eq!(number(high).narrow(width, caps()), Ok(out(width, high)));
        if low > i64::MIN as i128 {
            assert_eq!(number(low - 1).narrow(width, caps()), Err(Error::NumericRange));
        }
        if high < u64::MAX as i128 {
            assert_eq!(number(high + 1).narrow(width, caps()), Err(Error::NumericRange));
        }
        assert_eq!(Number::Float(0).narrow(width, caps()), Err(Error::NumericLoss));
    }
}

#[test]
fn unsigned_target_refuses_negative() {
    assert_eq!(decode(neg(-1), &Shape::Int(IntWidth::U64), caps()), Err(Error::NumericRange));
    assert_eq!(decode(neg(5), &Shape::Int(IntWidth::U8), caps()), Ok(Decoded::UInt(5)));
    assert_eq!(decode(neg(5), &Shape::Int(IntWidth::I8), caps()), Ok(Decoded::Int(5)));
    assert_eq!(
        decode(pos(u64::MAX), &Shape::Int(IntWidth::I64), caps()),
        Err(Error::NumericRange)
    );
}

#[test]
fn wide_targets_need_capability() {
    assert_eq!(decode(pos(1), &Shape::Int(IntWidth::I128), caps()), Err(Error::Unsupported));
    assert_eq!(decode_ref(&pos(1), &Shape::Int(IntWidth::U128), caps()), Err(Error::Unsupported));
    assert_eq!(
        decode(DType::Number(Number::Float(1)), &Shape::Int(IntWidth::U128), caps()),
        Err(Error::Unsupported)
    );
    assert_eq!(
        decode(pos(u64::MAX), &Shape::Int(IntWidth::I128), wide()),
        Ok(Decoded::Int(u64::MAX as i128))
    );
    assert_eq!(
        decode(pos(u64::MAX), &Shape::Int(IntWidth::U128), wide()),
        Ok(Decoded::UInt(u64::MAX as u128))
    );
    assert_eq!(
        decode(neg(i64::MIN), &Shape::Int(IntWidth::I128), wide()),
        Ok(Decoded::Int(i64::MIN as i128))
    );
    assert_eq!(decode(neg(-1), &Shape::Int(IntWidth::U128), wide()), Err(Error::NumericRange));
    assert_eq!(
        decode(DType::Null, &Shape::Int(IntWidth::U128), caps()),
        Err(Error::TypeMismatch(Expected::Integer, Found::Unit))
    );
}

#[test]
fn integer_refuses_float_literal() {
    assert_eq!(
        decode(DType::Number(Number::Float(0x4000_0000_0000_0000)), &Shape::Int(IntWidth::I64), caps()),
        Err(Error::NumericLoss)
    );
}

#[test]
fn float_target_takes_any_number() {
    for n in [Number::PosInt(3), Number::NegInt(-3), Number::Float(0x4008_0000_0000_0000)] {
        assert_eq!(
            decode(DType::Number(n), &Shape::Float(FloatWidth::F64), caps()),
            Ok(Decoded::Number(n))
        );
        assert_eq!(
            decode_ref(&DType::Number(n), &Shape::Float(FloatWidth::F32), caps()),
            Ok(Decoded::Number(n))
        );
    }
    assert_eq!(
        decode(DType::String("1.5".to_string()), &Shape::Float(FloatWidth::F64), caps()),
        Err(Error::TypeMismatch(Expected::Float, Found::Str("1.5".to_string())))
    );
}

#[test]
fn width_helpers() {
    assert!(IntWidth::I128.wide() && IntWidth::U128.wide() && !IntWidth::U64.wide());
    assert!(IntWidth::I8.signed() && !IntWidth::U8.signed());
    assert_eq!(IntWidth::U16.greatest(), 65535);
    assert_eq!(IntWidth::I16.greatest(), 32767);
    assert_eq!(IntWidth::I16.least(), -32768);
    assert_eq!(IntWidth::U16.least(), 0);
    assert_eq!(IntWidth::I128.least(), i128::MIN);
    assert_eq!(IntWidth::U128.greatest(), u128::MAX);
    assert_eq!(Capabilities::default(), Capabilities::none());
}

#[test]
fn option_of_empty_things_is_present() {
    let shape = |inner: Shape| Shape::Option(Box::new(inner));
    assert_eq!(
        decode(DType::String(String::new()), &shape(Shape::Str), caps()),
        Ok(Decoded::Present(Box::new(Decoded::Str("".into()))))
    );
    assert_eq!(
        decode(DType::Array(vec![]), &shape(Shape::Sequence(Box::new(Shape::Bool))), caps()),
        Ok(Decoded::Present(Box::new(Decoded::Sequence(vec![]))))
    );
    assert_eq!(
        decode(
            DType::Object(vec![]),
            &shape(Shape::Mapping(Box::new(Shape::Str), Box::new(Shape::Bool))),
            caps()
        ),
        Ok(Decoded::Present(Box::new(Decoded::Mapping(vec![]))))
    );
    assert_eq!(
        decode(DType::Boolean(false), &shape(Shape::Bool), caps()),
        Ok(Decoded::Present(Box::new(Decoded::Bool(false))))
    );
    assert_eq!(decode(DType::Null, &shape(shape(Shape::Bool)), caps()), Ok(Decoded::Absent));
    assert_eq!(
        decode(DType::Boolean(true), &shape(shape(Shape::Bool)), caps()),
        Ok(Decoded::Present(Box::new(Decoded::Present(Box::new(Decoded::Bool(true))))))
    );
    assert_eq!(
        decode(DType::Boolean(true), &shape(Shape::Str), caps()),
        Err(Error::TypeMismatch(Expected::Str, Found::Bool(true)))
    );
}

#[test]
fn bytes_from_string_and_array() {
    assert_eq!(
        decode(DType::String("hé".to_string()), &Shape::Bytes, caps()),
        Ok(Decoded::Bytes(vec![0x68, 0xc3, 0xa9]))
    );
    assert_eq!(
        decode_ref(&DType::String(String::new()), &Shape::Bytes, caps()),
        Ok(Decoded::Bytes(vec![]))
    );
    assert_eq!(
        decode(DType::Array(vec![pos(0), pos(255), neg(7)]), &Shape::Bytes, caps()),
        Ok(Decoded::Bytes(vec![0, 255, 7]))
    );
    assert_eq!(
        decode_ref(&DType::Array(vec![pos(0), pos(256)]), &Shape::Bytes, caps()),
        Err(Error::NumericRange)
    );
    assert_eq!(
        decode(DType::Array(vec![DType::Null]), &Shape::Bytes, caps()),
        Err(Error::TypeMismatch(Expected::Integer, Found::Unit))
    );
    assert_eq!(
        decode(DType::Object(vec![]), &Shape::Bytes, caps()),
        Err(Error::TypeMismatch(Expected::Bytes, Found::Mapping))
    );
}
