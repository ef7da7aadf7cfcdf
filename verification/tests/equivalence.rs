use dtype_de::de::{decode, EnumDeserializer, VariantDeserializer};
use dtype_de::de_ref::{decode_ref, EnumRefDeserializer, VariantRefDeserializer};
use dtype_de::decoded::Decoded;
use dtype_de::error::{Error, Expected, Found};
use dtype_de::shape::{Capabilities, Field, FloatWidth, IntWidth, Shape, Variant, VariantKind};
use dtype_de::text::{number_token_text, raw_token_text, reversed};
use dtype_de::value::{DType, DateTime, Number};

fn num(n: u64) -> DType {
    DType::Number(Number::PosInt(n))
}

fn trees() -> Vec<fn() -> DType> {
    vec![
        || DType::Null,
        || DType::Boolean(true),
        || num(42),
        || DType::Number(Number::NegInt(-42)),
        || DType::Number(Number::Float(0x3ff0_0000_0000_0000)),
        || DType::String("A".to_string()),
        || DType::String("42".to_string()),
        || DType::DateTime(DateTime { seconds: 3, nanos: 4 }),
        || DType::Array(vec![]),
        || DType::Array(vec![num(1), num(2)]),
        || DType::Array(vec![num(1), DType::String("x".to_string()), DType::Null]),
        || DType::Array(vec![DType::Array(vec![num(300)])]),
        || DType::Object(vec![]),
        || DType::Object(vec![("A".to_string(), DType::Null)]),
        || DType::Object(vec![("B".to_string(), num(7))]),
        || DType::Object(vec![("x".to_string(), num(5)), ("y".to_string(), DType::Boolean(true))]),
        || DType::Object(vec![("1".to_string(), num(5)), ("2".to_string(), num(6))]),
        || DType::Object(vec![(number_token_text().to_string(), DType::String("9".to_string()))]),
        || DType::Object(vec![(raw_token_text().to_string(), DType::String("[9]".to_string()))]),
        || {
            DType::Object(vec![(
                "C".to_string(),
                DType::Array(vec![num(1), DType::Object(vec![("x".to_string(), num(2))])]),
            )])
        },
    ]
}

fn shapes() -> Vec<Shape> {
    let int = || Shape::Int(IntWidth::U8);
    vec![
        Shape::Any,
        Shape::Unit,
        Shape::Bool,
        int(),
        Shape::Int(IntWidth::I64),
        Shape::Int(IntWidth::U128),
        Shape::Float(FloatWidth::F64),
        Shape::Str,
        Shape::Bytes,
        Shape::Ignored,
        Shape::Option(Box::new(int())),
        Shape::Option(Box::new(Shape::Any)),
        Shape::Sequence(Box::new(int())),
        Shape::Sequence(Box::new(Shape::Any)),
        Shape::Tuple(vec![]),
        Shape::Tuple(vec![int(), int()]),
        Shape::Tuple(vec![int(), Shape::Str, Shape::Unit]),
        Shape::Mapping(Box::new(Shape::Str), Box::new(int())),
        Shape::Mapping(Box::new(int()), Box::new(int())),
        Shape::Mapping(Box::new(Shape::Any), Box::new(Shape::Any)),
        Shape::Struct(vec![
            Field { name: "x".to_string(), shape: int() },
            Field { name: "y".to_string(), shape: Shape::Bool },
        ]),
        Shape::Enum(vec![
            Variant { name: "A".to_string(), kind: VariantKind::Unit },
            Variant { name: "B".to_string(), kind: VariantKind::Newtype(int()) },
            Variant {
                name: "C".to_string(),
                kind: VariantKind::Tuple(vec![
                    int(),
                    Shape::Struct(vec![Field { name: "x".to_string(), shape: int() }]),
                ]),
            },
        ]),
    ]
}

#[test]
fn borrowed_result_equals_owned_result() {
    let all = [
        Capabilities::none(),
        Capabilities { arbitrary_precision: true, raw_capture: true, wide_integers: true },
    ];
    let mut successes = 0;
    let mut failures = 0;
    for caps in all {
        for make in trees() {
            for shape in shapes() {
                let value = make();
                let borrowed = decode_ref(&value, &shape, caps);
                assert_eq!(value, make(), "the borrowed traversal changed the tree");
                let again = decode_ref(&value, &shape, caps);
                assert_eq!(borrowed, again, "a second borrowed decode differs");
                let owned = decode(make(), &shape, caps);
                assert_eq!(owned, borrowed, "{:?} against {:?}", make(), shape);
                if owned.is_ok() {
                    successes += 1;
                } else {
                    failures += 1;
                }
            }
        }
    }
    assert!(successes > 100);
    assert!(failures > 100);
}

#[test]
fn methods_agree_with_decode() {
    let caps = Capabilities::none();
    for make in trees() {
        assert_eq!(make().deserialize_any(caps), decode(make(), &Shape::Any, caps));
        assert_eq!(make().deserialize_any_ref(caps), decode(make(), &Shape::Any, caps));
        assert_eq!(make().deserialize_unit(), decode(make(), &Shape::Unit, caps));
        assert_eq!(make().deserialize_unit_ref(), decode(make(), &Shape::Unit, caps));
        assert_eq!(make().deserialize_bool(), decode(make(), &Shape::Bool, caps));
        assert_eq!(make().deserialize_bool_ref(), decode(make(), &Shape::Bool, caps));
        assert_eq!(make().deserialize_string(), decode(make(), &Shape::Str, caps));
        assert_eq!(make().deserialize_str_ref(), decode(make(), &Shape::Str, caps));
        assert_eq!(make().deserialize_byte_buf(caps), decode(make(), &Shape::Bytes, caps));
        assert_eq!(make().deserialize_bytes_ref(caps), decode(make(), &Shape::Bytes, caps));
        assert_eq!(make().deserialize_ignored_any(), Ok(Decoded::Unit));
        assert_eq!(make().deserialize_ignored_any_ref(), Ok(Decoded::Unit));
        assert_eq!(
            make().deserialize_integer(IntWidth::I8, caps),
            decode(make(), &Shape::Int(IntWidth::I8), caps)
        );
        assert_eq!(
            make().deserialize_integer_ref(IntWidth::I8, caps),
            decode(make(), &Shape::Int(IntWidth::I8), caps)
        );
        assert_eq!(
            make().deserialize_float(FloatWidth::F32),
            decode(make(), &Shape::Float(FloatWidth::F32), caps)
        );
        assert_eq!(
            make().deserialize_float_ref(FloatWidth::F32),
            decode(make(), &Shape::Float(FloatWidth::F32), caps)
        );
        assert_eq!(
            make().deserialize_option(&Shape::Bool, caps),
            decode(make(), &Shape::Option(Box::new(Shape::Bool)), caps)
        );
        assert_eq!(
            make().deserialize_option_ref(&Shape::Bool, caps),
            decode(make(), &Shape::Option(Box::new(Shape::Bool)), caps)
        );
        assert_eq!(
            make().deserialize_seq(&Shape::Any, caps),
            decode(make(), &Shape::Sequence(Box::new(Shape::Any)), caps)
        );
        assert_eq!(
            make().deserialize_seq_ref(&Shape::Any, caps),
            decode(make(), &Shape::Sequence(Box::new(Shape::Any)), caps)
        );
        assert_eq!(
            make().deserialize_tuple(&vec![Shape::Any, Shape::Any], caps),
            decode(make(), &Shape::Tuple(vec![Shape::Any, Shape::Any]), caps)
        );
        assert_eq!(
            make().deserialize_tuple_ref(&vec![Shape::Any, Shape::Any], caps),
            decode(make(), &Shape::Tuple(vec![Shape::Any, Shape::Any]), caps)
        );
        assert_eq!(
            make().deserialize_map(&Shape::Str, &Shape::Any, caps),
            decode(make(), &Shape::Mapping(Box::new(Shape::Str), Box::new(Shape::Any)), caps)
        );
        assert_eq!(
            make().deserialize_map_ref(&Shape::Str, &Shape::Any, caps),
            decode(make(), &Shape::Mapping(Box::new(Shape::Str), Box::new(Shape::Any)), caps)
        );
        let fields = || vec![Field { name: "x".to_string(), shape: Shape::Any }];
        assert_eq!(
            make().deserialize_struct(&fields(), caps),
            decode(make(), &Shape::Struct(fields()), caps)
        );
        assert_eq!(
            make().deserialize_struct_ref(&fields(), caps),
            decode(make(), &Shape::Struct(fields()), caps)
        );
        let variants = || vec![Variant { name: "A".to_string(), kind: VariantKind::Unit }];
        assert_eq!(
            make().deserialize_enum(&variants(), caps),
            decode(make(), &Shape::Enum(variants()), caps)
        );
        assert_eq!(
            make().deserialize_enum_ref(&variants(), caps),
            decode(make(), &Shape::Enum(variants()), caps)
        );
    }
}

#[test]
fn variant_access_by_hand() {
    let caps = Capabilities::none();
    let variants = vec![Variant { name: "B".to_string(), kind: VariantKind::Newtype(Shape::Bool) }];
    let access = EnumDeserializer { variant: "B".to_string(), value: Some(DType::Boolean(true)) };
    let (index, name, payload) = access.variant_seed(&variants).unwrap();
    assert_eq!((index, name.as_str()), (0, "B"));
    assert_eq!(payload.newtype_variant_seed(&Shape::Bool, caps), Ok(Decoded::Bool(true)));
    let access = EnumDeserializer { variant: "Q".to_string(), value: None };
    assert_eq!(
        access.variant_seed(&variants).err(),
        Some(Error::UnknownVariant("Q".to_string()))
    );
    let none = || VariantDeserializer { value: None };
    assert_eq!(none().unit_variant(), Ok(Decoded::Unit));
    assert_eq!(none().newtype_variant_seed(&Shape::Bool, caps), Err(Error::MissingPayload));
    assert_eq!(
        none().tuple_variant(&vec![], caps),
        Err(Error::TypeMismatch(Expected::TupleVariant, Found::UnitVariant))
    );
    assert_eq!(
        none().struct_variant(&vec![], caps),
        Err(Error::TypeMismatch(Expected::StructVariant, Found::UnitVariant))
    );
    let some = |v: DType| VariantDeserializer { value: Some(v) };
    assert_eq!(some(DType::Null).unit_variant(), Ok(Decoded::Unit));
    assert_eq!(
        some(num(1)).unit_variant(),
        Err(Error::TypeMismatch(Expected::Unit, Found::Unsigned(1)))
    );
    assert_eq!(
        some(DType::Array(vec![num(1)])).tuple_variant(&vec![Shape::Any], caps),
        Ok(Decoded::Sequence(vec![Decoded::Value(num(1))]))
    );
    assert_eq!(
        some(DType::Object(vec![])).struct_variant(&vec![], caps),
        Ok(Decoded::Sequence(vec![]))
    );
    let payload = DType::Array(vec![]);
    let by_ref = VariantRefDeserializer { value: Some(&payload) };
    assert_eq!(by_ref.tuple_variant(&vec![], caps), Ok(Decoded::Sequence(vec![])));
    let by_ref = VariantRefDeserializer { value: None };
    assert_eq!(by_ref.unit_variant(), Ok(Decoded::Unit));
    let by_ref = VariantRefDeserializer { value: Some(&payload) };
    assert_eq!(
        by_ref.struct_variant(&vec![], caps),
        Err(Error::TypeMismatch(Expected::StructVariant, Found::Sequence))
    );
    let by_ref = VariantRefDeserializer { value: Some(&payload) };
    assert_eq!(
        by_ref.newtype_variant_seed(&Shape::Any, caps),
        Ok(Decoded::Value(DType::Array(vec![])))
    );
    let access = EnumRefDeserializer { variant: "B", value: None };
    let (index, name, _) = access.variant_seed(&variants).unwrap();
    assert_eq!((index, name), (0, "B"));
}

#[test]
fn reversal_reverses() {
    assert_eq!(reversed(vec![1u8, 2, 3]), vec![3u8, 2, 1]);
    assert_eq!(reversed(Vec::<u8>::new()), Vec::<u8>::new());
}
