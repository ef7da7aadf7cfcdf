use dtype_de::de::{decode, visit_array, SeqDeserializer};
use dtype_de::de_ref::{decode_ref, visit_array_ref, SeqRefDeserializer};
use dtype_de::decoded::Decoded;
use dtype_de::error::{Container, Error, Expected, Found};
use dtype_de::shape::{Capabilities, Field, IntWidth, SeqVisitor, Shape};
use dtype_de::value::{DType, Number};

fn num(n: u64) -> DType {
    DType::Number(Number::PosInt(n))
}

fn int_shape() -> Shape {
    Shape::Int(IntWidth::U8)
}

fn array(n: u64) -> DType {
    DType::Array((0..n).map(num).collect())
}

fn tuple(m: usize) -> Shape {
    Shape::Tuple((0..m).map(|_| int_shape()).collect())
}

fn caps() -> Capabilities {
    Capabilities::none()
}

#[test]
fn tuple_shorter_than_array_is_excess() {
    assert_eq!(
        decode(array(3), &tuple(2), caps()),
        Err(Error::ExcessElements(3, Container::Array))
    );
    assert_eq!(
        decode_ref(&array(3), &tuple(2), caps()),
        Err(Error::ExcessElements(3, Container::Array))
    );
}

#[test]
fn tuple_longer_than_array_misses_element() {
    assert_eq!(decode(array(2), &tuple(3), caps()), Err(Error::MissingElement(2)));
    assert_eq!(decode_ref(&array(2), &tuple(3), caps()), Err(Error::MissingElement(2)));
}

#[test]
fn tuple_as_long_as_array_succeeds() {
    let want = Ok(Decoded::Sequence(vec![Decoded::UInt(0), Decoded::UInt(1), Decoded::UInt(2)]));
    assert_eq!(decode(array(3), &tuple(3), caps()), want);
    assert_eq!(decode_ref(&array(3), &tuple(3), caps()), want);
}

#[test]
fn empty_tuple_and_empty_array() {
    assert_eq!(decode(array(0), &tuple(0), caps()), Ok(Decoded::Sequence(vec![])));
    assert_eq!(
        decode(array(1), &tuple(0), caps()),
        Err(Error::ExcessElements(1, Container::Array))
    );
    assert_eq!(decode(array(0), &tuple(1), caps()), Err(Error::MissingElement(0)));
}

#[test]
fn element_error_comes_before_excess() {
    let value = DType::Array(vec![DType::Boolean(true), num(1)]);
    assert_eq!(
        decode(value, &tuple(1), caps()),
        Err(Error::TypeMismatch(Expected::Integer, Found::Bool(true)))
    );
}

#[test]
fn heterogeneous_tuple() {
    let value = DType::Array(vec![num(1), DType::String("a".to_string()), DType::Null]);
    let shape = Shape::Tuple(vec![int_shape(), Shape::Str, Shape::Unit]);
    assert_eq!(
        decode(value, &shape, caps()),
        Ok(Decoded::Sequence(vec![
            Decoded::UInt(1),
            Decoded::Str("a".into()),
            Decoded::Unit,
        ]))
    );
}

#[test]
fn sequence_takes_every_element() {
    let shape = Shape::Sequence(Box::new(int_shape()));
    assert_eq!(
        decode(array(4), &shape, caps()),
        Ok(Decoded::Sequence(vec![
            Decoded::UInt(0),
            Decoded::UInt(1),
            Decoded::UInt(2),
            Decoded::UInt(3),
        ]))
    );
    assert_eq!(decode(array(0), &shape, caps()), Ok(Decoded::Sequence(vec![])));
}

#[test]
fn sequence_refuses_object() {
    let shape = Shape::Sequence(Box::new(int_shape()));
    assert_eq!(
        decode(DType::Object(vec![]), &shape, caps()),
        Err(Error::TypeMismatch(Expected::Sequence, Found::Mapping))
    );
    assert_eq!(
        decode(DType::Object(vec![]), &tuple(0), caps()),
        Err(Error::TypeMismatch(Expected::Sequence, Found::Mapping))
    );
}

#[test]
fn record_by_position() {
    let shape = Shape::Struct(vec![
        Field { name: "a".to_string(), shape: int_shape() },
        Field { name: "b".to_string(), shape: Shape::Bool },
    ]);
    assert_eq!(
        decode(DType::Array(vec![num(9), DType::Boolean(false)]), &shape, caps()),
        Ok(Decoded::Sequence(vec![Decoded::UInt(9), Decoded::Bool(false)]))
    );
    assert_eq!(
        decode(DType::Array(vec![num(9)]), &shape, caps()),
        Err(Error::MissingElement(1))
    );
    assert_eq!(
        decode(DType::Array(vec![num(9), DType::Boolean(false), DType::Null]), &shape, caps()),
        Err(Error::ExcessElements(3, Container::Array))
    );
}

#[test]
fn owned_cursor_counts_down() {
    let mut de = SeqDeserializer::new(vec![num(1), num(2)]);
    assert_eq!(de.size_hint(), Some(2));
    assert_eq!(de.next_element_seed(&int_shape(), caps()), Ok(Some(Decoded::UInt(1))));
    assert_eq!(de.size_hint(), Some(1));
    assert_eq!(de.next_element_seed(&Shape::Bool, caps()),
        Err(Error::TypeMismatch(Expected::Bool, Found::Unsigned(2))));
    assert_eq!(de.size_hint(), Some(0));
    assert_eq!(de.next_element_seed(&int_shape(), caps()), Ok(None));
    assert_eq!(de.next_element_seed(&int_shape(), caps()), Ok(None));
    assert_eq!(de.size_hint(), Some(0));
}

#[test]
fn borrowed_cursor_counts_down() {
    let items = vec![num(1), num(2)];
    let mut de = SeqRefDeserializer::new(&items);
    assert_eq!(de.size_hint(), Some(2));
    assert_eq!(de.next_element_seed(&int_shape(), caps()), Ok(Some(Decoded::UInt(1))));
    assert_eq!(de.size_hint(), Some(1));
    assert_eq!(de.next_element_seed(&Shape::Str, caps()),
        Err(Error::TypeMismatch(Expected::Str, Found::Unsigned(2))));
    assert_eq!(de.next_element_seed(&int_shape(), caps()), Ok(None));
    assert_eq!(de.size_hint(), Some(0));
    assert_eq!(items, vec![num(1), num(2)]);
}

#[test]
fn visit_array_with_each_walk() {
    let shapes = vec![int_shape()];
    assert_eq!(
        visit_array(vec![num(1), num(2)], SeqVisitor::Tuple(&shapes), caps()),
        Err(Error::ExcessElements(2, Container::Array))
    );
    assert_eq!(
        visit_array(vec![num(1), num(2)], SeqVisitor::Bytes, caps()),
        Ok(Decoded::Bytes(vec![1, 2]))
    );
    assert_eq!(
        visit_array(vec![num(1)], SeqVisitor::Probe, caps()),
        Ok(Decoded::Value(DType::Array(vec![num(1)])))
    );
    let items = vec![num(1), num(2)];
    assert_eq!(
        visit_array_ref(&items, SeqVisitor::Elements(&int_shape()), caps()),
        Ok(Decoded::Sequence(vec![Decoded::UInt(1), Decoded::UInt(2)]))
    );
}
