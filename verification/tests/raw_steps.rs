use dtype_de::de::{MapDeserializer, SeqDeserializer};
use dtype_de::de_ref::{MapRefDeserializer, SeqRefDeserializer};
use dtype_de::decoded::Decoded;
use dtype_de::error::{Container, Error, Expected, Found};
use dtype_de::shape::{Capabilities, IntWidth, Shape};
use dtype_de::value::{DType, Number};

fn num(n: u64) -> DType {
    DType::Number(Number::PosInt(n))
}

fn entries() -> Vec<(String, DType)> {
    vec![("a".to_string(), num(1)), ("b".to_string(), num(2))]
}

#[test]
fn owned_sequence_by_raw_steps() {
    let mut de = SeqDeserializer::new(vec![num(1), num(2)]);
    assert_eq!(de.end(2), Err(Error::ExcessElements(2, Container::Array)));
    assert_eq!(de.next_value(), Some(num(1)));
    assert_eq!(de.end(2), Err(Error::ExcessElements(2, Container::Array)));
    assert_eq!(de.next_value(), Some(num(2)));
    assert_eq!(de.end(2), Ok(()));
    assert_eq!(de.next_value(), None);
    assert_eq!(de.end(2), Ok(()));
    assert_eq!(SeqDeserializer::new(vec![]).end(0), Ok(()));
}

#[test]
fn borrowed_sequence_by_raw_steps() {
    let items = vec![num(1), num(2)];
    let mut de = SeqRefDeserializer::new(&items);
    assert_eq!(de.next_value(), Some(&items[0]));
    assert_eq!(de.end(2), Err(Error::ExcessElements(2, Container::Array)));
    assert_eq!(de.next_value(), Some(&items[1]));
    assert_eq!(de.next_value(), None);
    assert_eq!(de.end(2), Ok(()));
}

#[test]
fn owned_map_by_raw_steps() {
    let mut de = MapDeserializer::new(entries());
    assert_eq!(de.take_value(), None);
    assert_eq!(de.next_key(), Some("a".to_string()));
    assert_eq!(de.end(2), Err(Error::ExcessElements(2, Container::Object)));
    assert_eq!(de.take_value(), Some(num(1)));
    assert_eq!(de.take_value(), None);
    assert_eq!(de.next_key(), Some("b".to_string()));
    assert_eq!(de.end(2), Ok(()));
    assert_eq!(de.next_key(), None);
    assert_eq!(de.take_value(), Some(num(2)));
    assert_eq!(de.end(2), Ok(()));
}

#[test]
fn borrowed_map_by_raw_steps() {
    let items = entries();
    let mut de = MapRefDeserializer::new(&items);
    assert_eq!(de.take_value(), None);
    assert_eq!(de.next_key(), Some("a"));
    assert_eq!(de.take_value(), Some(&items[0].1));
    assert_eq!(de.end(2), Err(Error::ExcessElements(2, Container::Object)));
    assert_eq!(de.next_key(), Some("b"));
    assert_eq!(de.next_key(), None);
    assert_eq!(de.take_value(), Some(&items[1].1));
    assert_eq!(de.end(2), Ok(()));
}

#[test]
fn value_taken_apart_as_tagged_union() {
    let access = DType::String("A".to_string()).into_enum().unwrap();
    assert_eq!((access.variant.as_str(), access.value), ("A", None));
    let access = DType::Object(vec![("B".to_string(), num(7))]).into_enum().unwrap();
    assert_eq!((access.variant.as_str(), access.value), ("B", Some(num(7))));
    assert_eq!(DType::Object(vec![]).into_enum().err(), Some(Error::InvalidVariantEncoding));
    assert_eq!(DType::Object(entries()).into_enum().err(), Some(Error::InvalidVariantEncoding));
    assert_eq!(
        num(1).into_enum().err(),
        Some(Error::TypeMismatch(Expected::Enum, Found::Unsigned(1)))
    );
    let value = DType::Object(vec![("B".to_string(), num(7))]);
    let access = value.as_enum().unwrap();
    assert_eq!((access.variant, access.value), ("B", Some(&num(7))));
    let value = DType::String("A".to_string());
    let access = value.as_enum().unwrap();
    assert_eq!((access.variant, access.value), ("A", None));
    assert_eq!(DType::Null.as_enum().err(), Some(Error::TypeMismatch(Expected::Enum, Found::Unit)));
    assert_eq!(DType::Object(entries()).as_enum().err(), Some(Error::InvalidVariantEncoding));
}

#[test]
fn wrapper_target_hands_value_on() {
    let caps = Capabilities::none();
    assert_eq!(
        num(3).deserialize_newtype_struct(&Shape::Int(IntWidth::U8), caps),
        Ok(Decoded::UInt(3))
    );
    assert_eq!(
        num(3).deserialize_newtype_struct_ref(&Shape::Bool, caps),
        Err(Error::TypeMismatch(Expected::Bool, Found::Unsigned(3)))
    );
}
