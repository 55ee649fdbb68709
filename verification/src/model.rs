//! The value shapes the encoder traverses, their ghost models, the wire
//! variants, and the error taxonomy.

use vstd::prelude::*;

verus! {

/// One-byte code written before a node to identify its shape.
pub const TAG_END: u8 = 0;
pub const TAG_BYTE: u8 = 1;
pub const TAG_SHORT: u8 = 2;
pub const TAG_INT: u8 = 3;
pub const TAG_LONG: u8 = 4;
pub const TAG_FLOAT: u8 = 5;
pub const TAG_DOUBLE: u8 = 6;
pub const TAG_BYTE_ARRAY: u8 = 7;
pub const TAG_STRING: u8 = 8;
pub const TAG_LIST: u8 = 9;
pub const TAG_COMPOUND: u8 = 10;

/// The three concrete byte layouts. `BigEndian` is the layout of the Java
/// edition, `LittleEndian` the disk layout of the Bedrock edition, and
/// `NetworkEndian` the Bedrock network layout with variable-length integers.
#[derive(Clone, Copy, PartialEq, Eq, Structural, Debug)]
pub enum Variant {
    BigEndian,
    LittleEndian,
    NetworkEndian,
}

/// Which unsupported shape a failed encode ran into.
#[derive(Clone, Copy, PartialEq, Eq, Structural, Debug)]
pub enum ShapeKind {
    /// An unsigned integer of 16 bits or more.
    UnsignedInt,
    /// A single character.
    Char,
    /// The unit value.
    Unit,
    /// An optional value anywhere but in a struct field.
    BareOptional,
    /// A sequence whose length is not known in advance.
    UnknownLength,
    /// A map key or value handed in without its other half.
    SplitEntry,
    /// A unit struct.
    UnitStruct,
    /// A newtype struct.
    NewtypeStruct,
    /// A tuple struct.
    TupleStruct,
    /// An enum variant of any shape.
    EnumVariant,
}

/// An encode either succeeds or fails with one of these; both are terminal
/// for the current encode. A `Vec` sink never rejects a write, so the
/// library's own functions only ever produce `UnsupportedShape`.
#[derive(Clone, Copy, PartialEq, Eq, Structural, Debug)]
pub enum NbtError {
    UnsupportedShape(ShapeKind),
    IoFailure,
}

/// An in-memory tree to be encoded. Floating-point payloads are carried as
/// their IEEE 754 bit patterns; a float is laid out on the wire exactly as
/// the unsigned integer with the same bits.
///
/// The shapes the format cannot represent (`UShort`, `UInt`, `ULong`,
/// `Char`, `Unit`, and an optional outside a struct field) are part of the
/// vocabulary so that handing one to the encoder fails with
/// `UnsupportedShape`, as the wire contract demands.
pub enum Value {
    Bool(bool),
    Byte(i8),
    Short(i16),
    Int(i32),
    Long(i64),
    /// A 32-bit float, as its bit pattern.
    Float(u32),
    /// A 64-bit float, as its bit pattern.
    Double(u64),
    Str(String),
    ByteArray(Vec<u8>),
    List(Vec<Value>),
    Compound(Vec<(Value, Value)>),
    Struct(String, Vec<(String, Value)>),
    Optional(Option<Box<Value>>),
    UShort(u16),
    UInt(u32),
    ULong(u64),
    Char(char),
    Unit,
}

/// The mathematical shadow of `Value`: strings as character sequences, byte
/// blobs and children as `Seq`s. All wire contracts are stated over this
/// type.
pub enum ValueModel {
    Bool(bool),
    Byte(i8),
    Short(i16),
    Int(i32),
    Long(i64),
    Float(u32),
    Double(u64),
    Str(Seq<char>),
    ByteArray(Seq<u8>),
    List(Seq<ValueModel>),
    Compound(Seq<(ValueModel, ValueModel)>),
    Struct(Seq<char>, Seq<(Seq<char>, ValueModel)>),
    OptAbsent,
    OptPresent(Box<ValueModel>),
    UShort(u16),
    UInt(u32),
    ULong(u64),
    Char(char),
    Unit,
}

pub open spec fn value_model(v: Value) -> ValueModel
    decreases v,
{
    match v {
        Value::Bool(b) => ValueModel::Bool(b),
        Value::Byte(x) => ValueModel::Byte(x),
        Value::Short(x) => ValueModel::Short(x),
        Value::Int(x) => ValueModel::Int(x),
        Value::Long(x) => ValueModel::Long(x),
        Value::Float(x) => ValueModel::Float(x),
        Value::Double(x) => ValueModel::Double(x),
        Value::Str(s) => ValueModel::Str(s@),
        Value::ByteArray(bs) => ValueModel::ByteArray(bs@),
        Value::List(es) => ValueModel::List(models_of(es@)),
        Value::Compound(en) => ValueModel::Compound(entry_models_of(en@)),
        Value::Struct(n, fs) => ValueModel::Struct(n@, field_models_of(fs@)),
        Value::Optional(o) => match o {
            Option::None => ValueModel::OptAbsent,
            Option::Some(b) => ValueModel::OptPresent(Box::new(value_model(*b))),
        },
        Value::UShort(x) => ValueModel::UShort(x),
        Value::UInt(x) => ValueModel::UInt(x),
        Value::ULong(x) => ValueModel::ULong(x),
        Value::Char(c) => ValueModel::Char(c),
        Value::Unit => ValueModel::Unit,
    }
}

/// The models of a run of list elements.
pub open spec fn models_of(es: Seq<Value>) -> Seq<ValueModel>
    decreases es,
{
    if es.len() == 0 {
        Seq::empty()
    } else {
        seq![value_model(es[0])] + models_of(es.subrange(1, es.len() as int))
    }
}

/// The models of a run of map entries.
pub open spec fn entry_models_of(en: Seq<(Value, Value)>) -> Seq<(ValueModel, ValueModel)>
    decreases en,
{
    if en.len() == 0 {
        Seq::empty()
    } else {
        seq![(value_model(en[0].0), value_model(en[0].1))]
            + entry_models_of(en.subrange(1, en.len() as int))
    }
}

/// The models of a run of struct fields.
pub open spec fn field_models_of(fs: Seq<(String, Value)>) -> Seq<(Seq<char>, ValueModel)>
    decreases fs,
{
    if fs.len() == 0 {
        Seq::empty()
    } else {
        seq![(fs[0].0@, value_model(fs[0].1))] + field_models_of(fs.subrange(1, fs.len() as int))
    }
}

pub proof fn lemma_models_of(es: Seq<Value>)
    ensures
        models_of(es).len() == es.len(),
        forall|i: int| 0 <= i < es.len() ==> models_of(es)[i] == value_model(es[i]),
    decreases es.len(),
{
    if es.len() > 0 {
        lemma_models_of(es.subrange(1, es.len() as int));
    }
}

pub proof fn lemma_entry_models_of(en: Seq<(Value, Value)>)
    ensures
        entry_models_of(en).len() == en.len(),
        forall|i: int| 0 <= i < en.len() ==> entry_models_of(en)[i] == (
            value_model(en[i].0),
            value_model(en[i].1),
        ),
    decreases en.len(),
{
    if en.len() > 0 {
        lemma_entry_models_of(en.subrange(1, en.len() as int));
    }
}

pub proof fn lemma_field_models_of(fs: Seq<(String, Value)>)
    ensures
        field_models_of(fs).len() == fs.len(),
        forall|i: int| 0 <= i < fs.len() ==> field_models_of(fs)[i] == (
            fs[i].0@,
            value_model(fs[i].1),
        ),
    decreases fs.len(),
{
    if fs.len() > 0 {
        lemma_field_models_of(fs.subrange(1, fs.len() as int));
    }
}

impl View for Value {
    type V = ValueModel;

    open spec fn view(&self) -> ValueModel {
        value_model(*self)
    }
}

/// The tag byte a value announces, for the shapes the probe accepts.
/// A present optional announces the tag of what it wraps.
pub open spec fn tag_of(v: ValueModel) -> u8
    decreases v,
{
    match v {
        ValueModel::Bool(_) => TAG_BYTE,
        ValueModel::Byte(_) => TAG_BYTE,
        ValueModel::Short(_) => TAG_SHORT,
        ValueModel::Int(_) => TAG_INT,
        ValueModel::Long(_) => TAG_LONG,
        ValueModel::Float(_) => TAG_FLOAT,
        ValueModel::Double(_) => TAG_DOUBLE,
        ValueModel::Str(_) => TAG_STRING,
        ValueModel::ByteArray(_) => TAG_BYTE_ARRAY,
        ValueModel::List(_) => TAG_LIST,
        ValueModel::Compound(_) => TAG_COMPOUND,
        ValueModel::Struct(_, _) => TAG_COMPOUND,
        ValueModel::OptPresent(b) => tag_of(*b),
        _ => TAG_END,
    }
}

/// The shape kind reported when a value is rejected at sight.
pub open spec fn reject_kind(v: ValueModel) -> ShapeKind {
    match v {
        ValueModel::UShort(_) => ShapeKind::UnsignedInt,
        ValueModel::UInt(_) => ShapeKind::UnsignedInt,
        ValueModel::ULong(_) => ShapeKind::UnsignedInt,
        ValueModel::Char(_) => ShapeKind::Char,
        ValueModel::Unit => ShapeKind::Unit,
        _ => ShapeKind::BareOptional,
    }
}

/// What the probe reports for a value: `None` if the shape is rejected,
/// `Some(None)` if the value is to be omitted without a tag, and
/// `Some(Some(t))` if tag byte `t` was announced.
pub open spec fn probe_result(v: ValueModel) -> Option<Option<u8>>
    decreases v,
{
    match v {
        ValueModel::Bool(_) | ValueModel::Byte(_) | ValueModel::Short(_)
        | ValueModel::Int(_) | ValueModel::Long(_) | ValueModel::Float(_)
        | ValueModel::Double(_) | ValueModel::Str(_) | ValueModel::ByteArray(_)
        | ValueModel::List(_) | ValueModel::Compound(_) | ValueModel::Struct(_, _) => {
            Option::Some(Option::Some(tag_of(v)))
        },
        ValueModel::OptAbsent => Option::Some(Option::None),
        ValueModel::OptPresent(b) => {
            if (*b) matches ValueModel::OptAbsent || (*b) matches ValueModel::OptPresent(_) {
                Option::None
            } else {
                probe_result(*b)
            }
        },
        _ => Option::None,
    }
}

} // verus!
