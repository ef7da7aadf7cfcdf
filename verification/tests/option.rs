use dtype_de::de::decode;
use dtype_de::de_ref::decode_ref;
use dtype_de::decoded::Decoded;
use dtype_de::shape::{Capabilities, IntWidth, Shape};
use dtype_de::value::{DType, Number};

fn optional_int() -> Shape {
    Shape::Option(Box::new(Shape::Int(IntWidth::I64)))
}

#[test]
fn null_against_optional_int_is_absent() {
    let r = decode(DType::Null, &optional_int(), Capabilities::none());
    assert_eq!(r, Ok(Decoded::Absent));
}

#[test]
fn zero_against_optional_int_is_present() {
    let r = decode(DType::Number(Number::PosInt(0)), &optional_int(), Capabilities::none());
    assert_eq!(r, Ok(Decoded::Present(Box::new(Decoded::Int(0)))));
}

#[test]
fn borrowed_option_agrees() {
    let v = DType::Number(Number::PosInt(0));
    let r = decode_ref(&v, &optional_int(), Capabilities::none());
    assert_eq!(r, Ok(Decoded::Present(Box::new(Decoded::Int(0)))));
    assert_eq!(v, DType::Number(Number::PosInt(0)));
}
