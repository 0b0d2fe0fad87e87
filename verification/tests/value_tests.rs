use caelum::value::{
    SerializeValueMap, SerializeValueSeq, Value, ValueDeserializer, ValueEnumAccess, ValueSerializer,
};

#[test]
fn int_conversion_in_range() {
    assert_eq!(Value::Int(-5).into_i8().unwrap(), -5i8);
    assert_eq!(Value::Int(300).into_i16().unwrap(), 300i16);
    assert_eq!(Value::Uint(7).into_u8().unwrap(), 7u8);
}

#[test]
fn int_conversion_out_of_range() {
    let e = Value::Int(1000).into_i8().unwrap_err();
    assert_eq!(e.0, "out of range integral type conversion attempted");
}

#[test]
fn conversion_of_wrong_variant() {
    let e = Value::Str("x".to_string()).into_i32().unwrap_err();
    assert_eq!(e.0, "expected int");
    assert!(Value::Null.into_bool().is_err());
    assert_eq!(Value::Bool(true).into_bool().unwrap(), true);
}

#[test]
fn string_and_char_conversions() {
    assert_eq!(Value::Str("hello".to_string()).into_string().unwrap(), "hello");
    assert_eq!(Value::Str("é".to_string()).into_char().unwrap(), 'é');
    assert!(Value::Str("ab".to_string()).into_char().is_err());
    match Value::from_char('z') {
        Value::Str(s) => assert_eq!(s, "z"),
        _ => panic!("expected a string"),
    }
}

#[test]
fn deep_clone_copies_structure() {
    let v = Value::List(vec![
        Value::Int(1),
        Value::Dict(vec![("a".to_string(), Value::Str("b".to_string()))]),
    ]);
    assert_eq!(v.deep_clone(), v);
}

#[test]
fn serializer_scalars() {
    assert_eq!(ValueSerializer.serialize_u64(5).unwrap(), Value::Uint(5));
    assert_eq!(ValueSerializer.serialize_i8(-2).unwrap(), Value::Int(-2));
    assert_eq!(ValueSerializer.serialize_unit().unwrap(), Value::Null);
    assert_eq!(
        ValueSerializer.serialize_unit_variant("Mode", 0, "normal").unwrap(),
        Value::Str("normal".to_string())
    );
}

#[test]
fn serializer_map_replaces_a_repeated_key() {
    let mut m: SerializeValueMap = ValueSerializer.serialize_map(None).unwrap();
    m.serialize_entry(Value::Str("k".to_string()), Value::Int(1)).unwrap();
    m.serialize_entry(Value::Str("k".to_string()), Value::Int(2)).unwrap();
    match m.end().unwrap() {
        Value::Dict(entries) => {
            assert_eq!(entries.len(), 1);
            assert_eq!(entries[0].1, Value::Int(2));
        }
        _ => panic!("expected a map"),
    }
}

#[test]
fn serializer_map_refuses_a_non_string_key() {
    let mut m: SerializeValueMap = ValueSerializer.serialize_map(None).unwrap();
    assert!(m.serialize_key(Value::Int(1)).is_err());
}

#[test]
fn serializer_seq_keeps_order() {
    let mut s: SerializeValueSeq = ValueSerializer.serialize_seq(None).unwrap();
    s.serialize_element(Value::Int(1)).unwrap();
    s.serialize_element(Value::Int(2)).unwrap();
    assert_eq!(s.end().unwrap(), Value::List(vec![Value::Int(1), Value::Int(2)]));
}

#[test]
fn deserialize_option_and_enum() {
    assert_eq!(ValueDeserializer(Value::Null).deserialize_option(), None);
    assert_eq!(ValueDeserializer(Value::Int(3)).deserialize_option(), Some(Value::Int(3)));
    match ValueDeserializer(Value::Str("insert".to_string())).deserialize_enum("Mode").unwrap() {
        ValueEnumAccess::Unit(name) => assert_eq!(name, "insert"),
        _ => panic!("expected a unit variant"),
    }
}
