use dtype_de::value::{insert, DType, Number};

fn num(n: u64) -> DType {
    DType::Number(Number::PosInt(n))
}

#[test]
fn last_write_to_a_key_wins() {
    let mut entries = Vec::new();
    insert(&mut entries, "a".to_string(), num(1));
    insert(&mut entries, "b".to_string(), num(2));
    insert(&mut entries, "c".to_string(), num(3));
    assert_eq!(
        entries,
        vec![("a".to_string(), num(1)), ("b".to_string(), num(2)), ("c".to_string(), num(3))]
    );
    insert(&mut entries, "b".to_string(), DType::Null);
    assert_eq!(
        entries,
        vec![("a".to_string(), num(1)), ("b".to_string(), DType::Null), ("c".to_string(), num(3))]
    );
    insert(&mut entries, "a".to_string(), DType::Boolean(true));
    insert(&mut entries, "".to_string(), num(0));
    assert_eq!(
        entries,
        vec![
            ("a".to_string(), DType::Boolean(true)),
            ("b".to_string(), DType::Null),
            ("c".to_string(), num(3)),
            ("".to_string(), num(0)),
        ]
    );
}

#[test]
fn first_of_repeated_keys_is_written() {
    let mut entries = vec![("k".to_string(), num(1)), ("k".to_string(), num(2))];
    insert(&mut entries, "k".to_string(), num(9));
    assert_eq!(entries, vec![("k".to_string(), num(9)), ("k".to_string(), num(2))]);
}

#[test]
fn number_of_an_integer() {
    assert_eq!(Number::from_i64(-1), Number::NegInt(-1));
    assert_eq!(Number::from_i64(i64::MIN), Number::NegInt(i64::MIN));
    assert_eq!(Number::from_i64(0), Number::PosInt(0));
    assert_eq!(Number::from_i64(i64::MAX), Number::PosInt(i64::MAX as u64));
    assert_eq!(Number::from_u64(u64::MAX), Number::PosInt(u64::MAX));
}
