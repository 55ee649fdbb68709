use nbtx::{to_be_bytes, to_bytes_in, to_le_bytes, to_net_bytes, NbtError, ShapeKind, Value};

fn record_int5(name: &str) -> Value {
    Value::Struct(
        String::from(name),
        vec![(String::from("a"), Value::Int(5))],
    )
}

#[test]
fn root_record_big_endian() {
    let out = to_be_bytes(&record_int5("r")).unwrap();
    assert_eq!(
        out,
        vec![0x0a, 0x00, 0x01, b'r', 0x03, 0x00, 0x01, b'a', 0x00, 0x00, 0x00, 0x05, 0x00]
    );
}

#[test]
fn root_record_little_endian() {
    let out = to_le_bytes(&record_int5("r")).unwrap();
    assert_eq!(
        out,
        vec![0x0a, 0x01, 0x00, b'r', 0x03, 0x01, 0x00, b'a', 0x05, 0x00, 0x00, 0x00, 0x00]
    );
}

#[test]
fn root_record_network() {
    // Under the network variant the i32 payload is the zigzagged varint of
    // 5, one byte 0x0a, and lengths are unsigned varints.
    let out = to_net_bytes(&record_int5("r")).unwrap();
    assert_eq!(out, vec![0x0a, 0x01, b'r', 0x03, 0x01, b'a', 0x0a, 0x00]);
}

#[test]
fn absent_optional_field_fully_omitted() {
    let with_absent = Value::Struct(
        String::from("s"),
        vec![
            (String::from("a"), Value::Int(1)),
            (String::from("b"), Value::Optional(None)),
        ],
    );
    let without = Value::Struct(String::from("s"), vec![(String::from("a"), Value::Int(1))]);
    let a = to_be_bytes(&with_absent).unwrap();
    let b = to_be_bytes(&without).unwrap();
    assert_eq!(a.len(), b.len());
    assert_eq!(a, b);
    assert_eq!(
        to_net_bytes(&with_absent).unwrap(),
        to_net_bytes(&without).unwrap()
    );
}

#[test]
fn present_optional_field_like_plain_string() {
    let wrapped = Value::Struct(
        String::from("s"),
        vec![(
            String::from("t"),
            Value::Optional(Some(Box::new(Value::Str(String::from("hi"))))),
        )],
    );
    let plain = Value::Struct(
        String::from("s"),
        vec![(String::from("t"), Value::Str(String::from("hi")))],
    );
    assert_eq!(to_be_bytes(&wrapped).unwrap(), to_be_bytes(&plain).unwrap());
    assert_eq!(
        to_be_bytes(&plain).unwrap(),
        vec![0x0a, 0x00, 0x01, b's', 0x08, 0x00, 0x01, b't', 0x00, 0x02, b'h', b'i', 0x00]
    );
}

#[test]
fn int_sequence_network() {
    let v = Value::List(vec![Value::Int(1), Value::Int(2), Value::Int(3)]);
    // Int tag, varint count 3 (zigzag 6), then the three zigzagged values,
    // and no trailing terminator.
    assert_eq!(to_net_bytes(&v).unwrap(), vec![0x03, 0x06, 0x02, 0x04, 0x06]);
}

#[test]
fn every_compound_ends_with_one_end_byte() {
    let v = Value::Struct(
        String::from("r"),
        vec![(String::from("m"), Value::Compound(vec![]))],
    );
    // Under the network variant no length field produces a zero byte here,
    // so the End marks are exactly the zero bytes of the stream.
    let out = to_net_bytes(&v).unwrap();
    assert_eq!(out, vec![0x0a, 0x01, b'r', 0x0a, 0x01, b'm', 0x00, 0x00]);
    let zeros = out.iter().filter(|b| **b == 0).count();
    assert_eq!(zeros, 2);
    assert_eq!(*out.last().unwrap(), 0x00);
}

#[test]
fn rejected_shapes_fail_without_output() {
    let mut sink: Vec<u8> = Vec::new();
    let r = to_bytes_in(&mut sink, &Value::UInt(7), nbtx::Variant::BigEndian);
    assert_eq!(r, Err(NbtError::UnsupportedShape(ShapeKind::UnsignedInt)));
    assert_eq!(sink.len(), 0);

    let r = to_bytes_in(&mut sink, &Value::Optional(None), nbtx::Variant::BigEndian);
    assert_eq!(r, Err(NbtError::UnsupportedShape(ShapeKind::BareOptional)));
    assert_eq!(sink.len(), 0);

    let r = to_bytes_in(&mut sink, &Value::Unit, nbtx::Variant::BigEndian);
    assert_eq!(r, Err(NbtError::UnsupportedShape(ShapeKind::Unit)));
    assert_eq!(sink.len(), 0);

    let r = to_bytes_in(&mut sink, &Value::Char('x'), nbtx::Variant::BigEndian);
    assert_eq!(r, Err(NbtError::UnsupportedShape(ShapeKind::Char)));
    assert_eq!(sink.len(), 0);

    assert!(to_be_bytes(&Value::UShort(1)).is_err());
    assert!(to_be_bytes(&Value::ULong(1)).is_err());
}

#[test]
fn variants_differ_only_in_rule_table_regions() {
    let v = Value::Struct(
        String::from("n"),
        vec![(String::from("a"), Value::Byte(1))],
    );
    // Tags, names, the 8-bit payload and the End mark are identical in all
    // three streams; only the two name-length fields are laid out
    // differently.
    let be = to_be_bytes(&v).unwrap();
    let le = to_le_bytes(&v).unwrap();
    let net = to_net_bytes(&v).unwrap();
    assert_eq!(be, vec![0x0a, 0x00, 0x01, b'n', 0x01, 0x00, 0x01, b'a', 0x01, 0x00]);
    assert_eq!(le, vec![0x0a, 0x01, 0x00, b'n', 0x01, 0x01, 0x00, b'a', 0x01, 0x00]);
    assert_eq!(net, vec![0x0a, 0x01, b'n', 0x01, 0x01, b'a', 0x01, 0x00]);
}

#[test]
fn bare_scalar_roots_write_payload_only() {
    assert_eq!(to_be_bytes(&Value::Bool(true)).unwrap(), vec![0x01]);
    assert_eq!(to_be_bytes(&Value::Byte(-2)).unwrap(), vec![0xfe]);
    assert_eq!(to_be_bytes(&Value::Short(-2)).unwrap(), vec![0xff, 0xfe]);
    assert_eq!(to_le_bytes(&Value::Short(-2)).unwrap(), vec![0xfe, 0xff]);
    assert_eq!(
        to_be_bytes(&Value::Long(1)).unwrap(),
        vec![0, 0, 0, 0, 0, 0, 0, 1]
    );
    assert_eq!(
        to_le_bytes(&Value::Long(1)).unwrap(),
        vec![1, 0, 0, 0, 0, 0, 0, 0]
    );
}

#[test]
fn float_payloads_are_their_bit_patterns() {
    let one = 1.0f32.to_bits();
    assert_eq!(one, 0x3f800000);
    assert_eq!(
        to_be_bytes(&Value::Float(one)).unwrap(),
        vec![0x3f, 0x80, 0x00, 0x00]
    );
    assert_eq!(
        to_le_bytes(&Value::Float(one)).unwrap(),
        vec![0x00, 0x00, 0x80, 0x3f]
    );
    let two = 2.0f64.to_bits();
    assert_eq!(
        to_be_bytes(&Value::Double(two)).unwrap(),
        vec![0x40, 0x00, 0x00, 0x00, 0x00, 0x00, 0x00, 0x00]
    );
    assert_eq!(
        to_le_bytes(&Value::Double(two)).unwrap(),
        vec![0x00, 0x00, 0x00, 0x00, 0x00, 0x00, 0x00, 0x40]
    );
    // Floats stay fixed-width under the network variant.
    assert_eq!(
        to_net_bytes(&Value::Float(one)).unwrap(),
        vec![0x00, 0x00, 0x80, 0x3f]
    );
}

#[test]
fn network_varints_take_minimal_bytes() {
    // zigzag(300) = 600 = 0b100_1011000: two varint bytes.
    assert_eq!(to_net_bytes(&Value::Int(300)).unwrap(), vec![0xd8, 0x04]);
    // zigzag(-1) = 1: one byte.
    assert_eq!(to_net_bytes(&Value::Int(-1)).unwrap(), vec![0x01]);
    assert_eq!(to_net_bytes(&Value::Long(-2)).unwrap(), vec![0x03]);
}

#[test]
fn string_lengths_count_utf8_bytes() {
    let s = Value::Str(String::from("\u{e9}"));
    assert_eq!(to_be_bytes(&s).unwrap(), vec![0x00, 0x02, 0xc3, 0xa9]);
    assert_eq!(to_net_bytes(&s).unwrap(), vec![0x02, 0xc3, 0xa9]);
}

#[test]
fn byte_arrays_carry_count_then_raw_bytes() {
    let v = Value::ByteArray(vec![9, 8, 7]);
    assert_eq!(
        to_be_bytes(&v).unwrap(),
        vec![0x00, 0x00, 0x00, 0x03, 9, 8, 7]
    );
    assert_eq!(to_net_bytes(&v).unwrap(), vec![0x06, 9, 8, 7]);
}

#[test]
fn declared_zero_length_sequence_writes_nothing() {
    // The zero-length boundary: the (tag, count) pair is resolved against
    // the first element, so an empty sequence contributes zero bytes, kept
    // byte-for-byte as the wire behaves.
    assert_eq!(to_be_bytes(&Value::List(vec![])).unwrap(), Vec::<u8>::new());
}

#[test]
fn root_header_goes_to_first_compound_even_inside_a_list() {
    let v = Value::List(vec![Value::Compound(vec![]), Value::Compound(vec![])]);
    // The first compound the encoder touches carries the document header;
    // its sibling does not.
    assert_eq!(
        to_be_bytes(&v).unwrap(),
        vec![0x0a, 0x00, 0x00, 0x00, 0x02, 0x0a, 0x00, 0x00, 0x00, 0x00]
    );
}

#[test]
fn map_root_uses_empty_name() {
    let v = Value::Compound(vec![(
        Value::Str(String::from("k")),
        Value::Byte(3),
    )]);
    assert_eq!(
        to_be_bytes(&v).unwrap(),
        vec![0x0a, 0x00, 0x00, 0x01, 0x00, 0x01, b'k', 0x03, 0x00]
    );
}

#[test]
fn non_string_map_keys_pass_through_unchecked() {
    // Legacy behavior: a non-string key is encoded through the ordinary
    // payload path, yielding a malformed document without an error.
    let v = Value::Compound(vec![(Value::Int(1), Value::Byte(2))]);
    assert_eq!(
        to_be_bytes(&v).unwrap(),
        vec![0x0a, 0x00, 0x00, 0x01, 0x00, 0x00, 0x00, 0x01, 0x02, 0x00]
    );
}

#[test]
fn optional_inside_list_or_map_is_rejected() {
    let inside_list = Value::List(vec![Value::Optional(Some(Box::new(Value::Int(1))))]);
    assert_eq!(
        to_be_bytes(&inside_list),
        Err(NbtError::UnsupportedShape(ShapeKind::BareOptional))
    );
    let as_map_value = Value::Compound(vec![(
        Value::Str(String::from("k")),
        Value::Optional(None),
    )]);
    assert!(to_be_bytes(&as_map_value).is_err());
}

#[test]
fn nested_maps_keep_inner_terminators() {
    let v = Value::Compound(vec![(
        Value::Str(String::from("in")),
        Value::Compound(vec![(Value::Str(String::from("x")), Value::Byte(1))]),
    )]);
    let out = to_net_bytes(&v).unwrap();
    assert_eq!(
        out,
        vec![0x0a, 0x00, 0x0a, 0x02, b'i', b'n', 0x01, 0x01, b'x', 0x01, 0x00, 0x00]
    );
}
