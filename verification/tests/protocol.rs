use nbtx::{FieldTypeSerializer, NbtError, Serializer, ShapeKind, Value, Variant};

#[test]
fn sequence_state_machine_by_hand() {
    // Driving the serializer through the sequence protocol produces the
    // same stream as handing it the whole list.
    let mut ser = Serializer::new(Vec::new(), Variant::BigEndian);
    ser.serialize_seq(Some(2)).unwrap();
    ser.serialize_element(&Value::Int(1)).unwrap();
    ser.serialize_element(&Value::Int(2)).unwrap();
    let by_hand = ser.into_inner();
    let whole = nbtx::to_be_bytes(&Value::List(vec![Value::Int(1), Value::Int(2)])).unwrap();
    assert_eq!(by_hand, whole);
    assert_eq!(
        by_hand,
        vec![0x03, 0x00, 0x00, 0x00, 0x02, 0x00, 0x00, 0x00, 0x01, 0x00, 0x00, 0x00, 0x02]
    );
}

#[test]
fn unknown_length_sequences_are_rejected() {
    let mut ser = Serializer::new(Vec::new(), Variant::BigEndian);
    assert_eq!(
        ser.serialize_seq(None),
        Err(NbtError::UnsupportedShape(ShapeKind::UnknownLength))
    );
    assert_eq!(ser.into_inner(), Vec::<u8>::new());
}

#[test]
fn tuples_behave_like_sequences() {
    let mut ser = Serializer::new(Vec::new(), Variant::NetworkEndian);
    ser.serialize_tuple(1).unwrap();
    ser.serialize_element(&Value::Byte(7)).unwrap();
    assert_eq!(ser.into_inner(), vec![0x01, 0x02, 0x07]);
}

#[test]
fn map_protocol_by_hand() {
    let mut ser = Serializer::new(Vec::new(), Variant::BigEndian);
    ser.serialize_map().unwrap();
    ser.serialize_entry(&Value::Str(String::from("k")), &Value::Byte(3)).unwrap();
    ser.end().unwrap();
    let whole = nbtx::to_be_bytes(&Value::Compound(vec![(
        Value::Str(String::from("k")),
        Value::Byte(3),
    )]))
    .unwrap();
    assert_eq!(ser.into_inner(), whole);
}

#[test]
fn struct_protocol_by_hand() {
    let mut ser = Serializer::new(Vec::new(), Variant::BigEndian);
    ser.serialize_struct("s", 2).unwrap();
    ser.serialize_field("a", &Value::Int(5)).unwrap();
    ser.serialize_field("b", &Value::Optional(None)).unwrap();
    ser.end().unwrap();
    let whole = nbtx::to_be_bytes(&Value::Struct(
        String::from("s"),
        vec![(String::from("a"), Value::Int(5))],
    ))
    .unwrap();
    assert_eq!(ser.into_inner(), whole);
}

#[test]
fn split_map_entries_are_refused() {
    let mut ser = Serializer::new(Vec::new(), Variant::BigEndian);
    assert_eq!(
        ser.serialize_key(&Value::Str(String::from("k"))),
        Err(NbtError::UnsupportedShape(ShapeKind::SplitEntry))
    );
}

#[test]
fn bare_optionals_and_unit_are_refused_by_the_payload_path() {
    let mut ser = Serializer::new(Vec::new(), Variant::BigEndian);
    assert_eq!(
        ser.serialize_none(),
        Err(NbtError::UnsupportedShape(ShapeKind::BareOptional))
    );
    assert_eq!(
        ser.serialize_some(&Value::Int(1)),
        Err(NbtError::UnsupportedShape(ShapeKind::BareOptional))
    );
    assert_eq!(
        ser.serialize_unit(),
        Err(NbtError::UnsupportedShape(ShapeKind::Unit))
    );
    assert_eq!(ser.into_inner(), Vec::<u8>::new());
}

#[test]
fn struct_like_and_variant_shapes_are_refused() {
    let mut ser = Serializer::new(Vec::new(), Variant::BigEndian);
    assert_eq!(
        ser.serialize_unit_struct("u"),
        Err(NbtError::UnsupportedShape(ShapeKind::UnitStruct))
    );
    assert_eq!(
        ser.serialize_unit_variant("e", 0, "v"),
        Err(NbtError::UnsupportedShape(ShapeKind::EnumVariant))
    );
    assert_eq!(
        ser.serialize_newtype_struct("n", &Value::Int(1)),
        Err(NbtError::UnsupportedShape(ShapeKind::NewtypeStruct))
    );
    assert_eq!(
        ser.serialize_newtype_variant("e", 0, "v", &Value::Int(1)),
        Err(NbtError::UnsupportedShape(ShapeKind::EnumVariant))
    );
    assert_eq!(
        ser.serialize_tuple_struct("t", 2),
        Err(NbtError::UnsupportedShape(ShapeKind::TupleStruct))
    );
    assert_eq!(
        ser.serialize_tuple_variant("e", 0, "v", 2),
        Err(NbtError::UnsupportedShape(ShapeKind::EnumVariant))
    );
    assert_eq!(
        ser.serialize_struct_variant("e", 0, "v", 2),
        Err(NbtError::UnsupportedShape(ShapeKind::EnumVariant))
    );
    assert_eq!(ser.into_inner(), Vec::<u8>::new());
}

#[test]
fn probe_reports_tags_without_writing() {
    let p = FieldTypeSerializer::new();
    assert_eq!(p.field_type(&Value::Bool(true)), Ok(Some(1)));
    assert_eq!(p.field_type(&Value::Byte(0)), Ok(Some(1)));
    assert_eq!(p.field_type(&Value::Short(0)), Ok(Some(2)));
    assert_eq!(p.field_type(&Value::Int(0)), Ok(Some(3)));
    assert_eq!(p.field_type(&Value::Long(0)), Ok(Some(4)));
    assert_eq!(p.field_type(&Value::Float(0)), Ok(Some(5)));
    assert_eq!(p.field_type(&Value::Double(0)), Ok(Some(6)));
    assert_eq!(p.field_type(&Value::ByteArray(vec![])), Ok(Some(7)));
    assert_eq!(p.field_type(&Value::Str(String::new())), Ok(Some(8)));
    assert_eq!(p.field_type(&Value::List(vec![])), Ok(Some(9)));
    assert_eq!(p.field_type(&Value::Compound(vec![])), Ok(Some(10)));
    assert_eq!(
        p.field_type(&Value::Struct(String::from("s"), vec![])),
        Ok(Some(10))
    );
}

#[test]
fn probe_recurses_into_present_optionals() {
    let p = FieldTypeSerializer::new();
    assert_eq!(p.field_type(&Value::Optional(None)), Ok(None));
    assert_eq!(
        p.field_type(&Value::Optional(Some(Box::new(Value::Str(String::from("x")))))),
        Ok(Some(8))
    );
    assert_eq!(
        p.field_type(&Value::Optional(Some(Box::new(Value::Optional(None))))),
        Err(NbtError::UnsupportedShape(ShapeKind::BareOptional))
    );
    assert_eq!(
        p.field_type(&Value::UInt(1)),
        Err(NbtError::UnsupportedShape(ShapeKind::UnsignedInt))
    );
}

#[test]
fn sink_keeps_bytes_committed_before_a_failure() {
    // Errors surface lazily: siblings encoded earlier in the same compound
    // stay in the sink.
    let mut sink: Vec<u8> = Vec::new();
    let v = Value::Struct(
        String::from("s"),
        vec![
            (String::from("a"), Value::Byte(1)),
            (String::from("b"), Value::Unit),
        ],
    );
    let r = nbtx::to_bytes_in(&mut sink, &v, Variant::BigEndian);
    assert_eq!(r, Err(NbtError::UnsupportedShape(ShapeKind::Unit)));
    assert!(sink.len() > 0);
    assert_eq!(
        sink,
        vec![0x0a, 0x00, 0x01, b's', 0x01, 0x00, 0x01, b'a', 0x01]
    );
}

#[test]
fn appending_sink_is_preserved() {
    let mut sink: Vec<u8> = vec![0xAB];
    nbtx::to_bytes_in(&mut sink, &Value::Bool(false), Variant::LittleEndian).unwrap();
    assert_eq!(sink, vec![0xAB, 0x00]);
}
