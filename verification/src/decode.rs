//! The decoding side of the wire contract. The scalar layer shows that
//! every rule-table field kind is read back bijectively; on top of it, a
//! specification-level decoder walks whole documents, and the round-trip
//! theorem at the end shows that encoding any well-formed map- or
//! struct-rooted value under any variant and decoding the stream gives
//! back exactly its wire image.

use vstd::prelude::*;

use crate::bytes::{
    be16, be32, be64, i32_of_bits, le16, le32, le64, low16, low32, u16_bits_of_i16,
    u32_bits_of_i32, u64_bits_of_i64, varint, zigzag32, zigzag64,
};
use crate::model::{tag_of, ValueModel, Variant, TAG_BYTE, TAG_BYTE_ARRAY, TAG_COMPOUND, TAG_DOUBLE, TAG_END, TAG_FLOAT, TAG_INT, TAG_LIST, TAG_LONG, TAG_SHORT, TAG_STRING};
use crate::ser::{
    field_step, header_toks, str_toks, tag_tok, toks_elems, toks_entries, toks_fields,
    toks_value, unwrap_field,
};
use crate::model::probe_result;
use crate::tokens::{
    lemma_render_concat, lemma_render_cons, lemma_render_one, lemma_render_two, render,
    render_token, Token,
};
use vstd::arithmetic::div_mod::{lemma_div_denominator, lemma_fundamental_div_mod};
use vstd::utf8::{
    decode_utf8, encode_utf8, encode_utf8_decode_utf8, encode_utf8_valid_utf8, valid_utf8,
};

verus! {

/// Reading a variable-length integer: 7 payload bits per byte, least
/// significant group first, the high bit flagging continuation. Yields the
/// value and how many bytes were consumed, or nothing on an empty or
/// truncated stream.
pub open spec fn dec_varint(b: Seq<u8>) -> Option<(nat, int)>
    decreases b.len(),
{
    if b.len() == 0 {
        Option::None
    } else if b[0] < 0x80 {
        Option::Some((b[0] as nat, 1))
    } else {
        match dec_varint(b.subrange(1, b.len() as int)) {
            Option::None => Option::None,
            Option::Some((m, c)) => Option::Some(((b[0] - 0x80) as nat + 0x80 * m, c + 1)),
        }
    }
}

/// Reading back a written variable-length integer recovers the value and
/// consumes exactly its bytes, whatever follows in the stream.
pub proof fn lemma_varint_round_trip(n: nat, rest: Seq<u8>)
    ensures
        dec_varint(varint(n) + rest) == Option::Some((n, varint(n).len() as int)),
    decreases n,
{
    let b = varint(n) + rest;
    if n < 0x80 {
        assert(b[0] == n as u8);
    } else {
        lemma_varint_round_trip(n / 0x80, rest);
        assert(b[0] == (n % 0x80 + 0x80) as u8);
        assert(b.subrange(1, b.len() as int) =~= varint(n / 0x80) + rest);
        lemma_fundamental_div_mod(n as int, 0x80);
    }
}

/// The inverse of the 32-bit zigzag map.
pub open spec fn unzigzag32(m: nat) -> int {
    if m % 2 == 0 {
        (m / 2) as int
    } else {
        -(((m + 1) / 2) as int)
    }
}

/// The inverse of the 64-bit zigzag map.
pub open spec fn unzigzag64(m: nat) -> int {
    if m % 2 == 0 {
        (m / 2) as int
    } else {
        -(((m + 1) / 2) as int)
    }
}

/// Zigzag is undone exactly: every 32-bit signed value comes back.
pub proof fn lemma_zigzag32_round_trip(v: i32)
    ensures
        unzigzag32(zigzag32(v)) == v as int,
{
}

/// Zigzag is undone exactly: every 64-bit signed value comes back.
pub proof fn lemma_zigzag64_round_trip(v: i64)
    ensures
        unzigzag64(zigzag64(v)) == v as int,
{
}

/// Reading two big-endian bytes.
pub open spec fn dec_be16(b: Seq<u8>) -> nat
    recommends
        b.len() == 2,
{
    (b[0] * 0x100 + b[1]) as nat
}

/// Reading two little-endian bytes.
pub open spec fn dec_le16(b: Seq<u8>) -> nat
    recommends
        b.len() == 2,
{
    (b[1] * 0x100 + b[0]) as nat
}

/// Reading four big-endian bytes.
pub open spec fn dec_be32(b: Seq<u8>) -> nat
    recommends
        b.len() == 4,
{
    (b[0] * 0x1000000 + b[1] * 0x10000 + b[2] * 0x100 + b[3]) as nat
}

/// Reading four little-endian bytes.
pub open spec fn dec_le32(b: Seq<u8>) -> nat
    recommends
        b.len() == 4,
{
    (b[3] * 0x1000000 + b[2] * 0x10000 + b[1] * 0x100 + b[0]) as nat
}

/// Reading eight big-endian bytes.
pub open spec fn dec_be64(b: Seq<u8>) -> nat
    recommends
        b.len() == 8,
{
    (b[0] * 0x100000000000000 + b[1] * 0x1000000000000 + b[2] * 0x10000000000 + b[3] * 0x100000000
        + b[4] * 0x1000000 + b[5] * 0x10000 + b[6] * 0x100 + b[7]) as nat
}

/// Reading eight little-endian bytes.
pub open spec fn dec_le64(b: Seq<u8>) -> nat
    recommends
        b.len() == 8,
{
    (b[7] * 0x100000000000000 + b[6] * 0x1000000000000 + b[5] * 0x10000000000 + b[4] * 0x100000000
        + b[3] * 0x1000000 + b[2] * 0x10000 + b[1] * 0x100 + b[0]) as nat
}

/// A 16-bit word written in either byte order is read back exactly.
pub proof fn lemma_16_round_trip(x: u16)
    ensures
        dec_be16(be16(x)) == x as nat,
        dec_le16(le16(x)) == x as nat,
{
    lemma_fundamental_div_mod(x as int, 0x100);
}

/// A 32-bit word written in either byte order is read back exactly.
pub proof fn lemma_32_round_trip(x: u32)
    ensures
        dec_be32(be32(x)) == x as nat,
        dec_le32(le32(x)) == x as nat,
{
    lemma_div_denominator(x as int, 0x100, 0x100);
    lemma_div_denominator(x as int, 0x10000, 0x100);
    lemma_fundamental_div_mod(x as int, 0x100);
    lemma_fundamental_div_mod(x as int / 0x100, 0x100);
    lemma_fundamental_div_mod(x as int / 0x10000, 0x100);
    assert(x as int / 0x1000000 < 0x100) by {
        lemma_div_denominator(x as int, 0x1000000, 0x100);
    }
    assert(le32(x) =~= be32(x).reverse());
    assert(le32(x)[0] == be32(x)[3]);
    assert(le32(x)[1] == be32(x)[2]);
    assert(le32(x)[2] == be32(x)[1]);
    assert(le32(x)[3] == be32(x)[0]);
}

/// A 64-bit word written in either byte order is read back exactly.
pub proof fn lemma_64_round_trip(x: u64)
    ensures
        dec_be64(be64(x)) == x as nat,
        dec_le64(le64(x)) == x as nat,
{
    lemma_div_denominator(x as int, 0x100, 0x100);
    lemma_div_denominator(x as int, 0x10000, 0x100);
    lemma_div_denominator(x as int, 0x1000000, 0x100);
    lemma_div_denominator(x as int, 0x100000000, 0x100);
    lemma_div_denominator(x as int, 0x10000000000, 0x100);
    lemma_div_denominator(x as int, 0x1000000000000, 0x100);
    lemma_fundamental_div_mod(x as int, 0x100);
    lemma_fundamental_div_mod(x as int / 0x100, 0x100);
    lemma_fundamental_div_mod(x as int / 0x10000, 0x100);
    lemma_fundamental_div_mod(x as int / 0x1000000, 0x100);
    lemma_fundamental_div_mod(x as int / 0x100000000, 0x100);
    lemma_fundamental_div_mod(x as int / 0x10000000000, 0x100);
    lemma_fundamental_div_mod(x as int / 0x1000000000000, 0x100);
    assert(x as int / 0x100000000000000 < 0x100) by {
        lemma_div_denominator(x as int, 0x100000000000000, 0x100);
    }
    assert(le64(x) =~= be64(x).reverse());
    assert(le64(x)[0] == be64(x)[7]);
    assert(le64(x)[1] == be64(x)[6]);
    assert(le64(x)[2] == be64(x)[5]);
    assert(le64(x)[3] == be64(x)[4]);
    assert(le64(x)[4] == be64(x)[3]);
    assert(le64(x)[5] == be64(x)[2]);
    assert(le64(x)[6] == be64(x)[1]);
    assert(le64(x)[7] == be64(x)[0]);
}

/// Lengths within the field's width survive the reduction the wire
/// applies: the rule table is lossless wherever a conforming document can
/// arise at all.
pub proof fn lemma_lengths_in_range_kept(n: nat)
    ensures
        n < 0x10000 ==> low16(n) == n,
        n < 0x100000000 ==> low32(n) == n,
{
}

/// The signed 16-bit value with the same bits as `x`.
pub open spec fn i16_of_bits(x: u16) -> i16 {
    if x < 0x8000 {
        x as i16
    } else {
        (x - 0x10000) as i16
    }
}

/// The signed 64-bit value with the same bits as `x`.
pub open spec fn i64_of_bits(x: u64) -> i64 {
    if x < 0x8000000000000000 {
        x as i64
    } else {
        (x - 0x10000000000000000) as i64
    }
}

/// Reinterpreting a signed value's bits as unsigned and back is the
/// identity, at every width the rule table uses.
pub proof fn lemma_signed_bits_round_trip(a: i16, b: i32, c: i64)
    ensures
        i16_of_bits(u16_bits_of_i16(a)) == a,
        i32_of_bits(u32_bits_of_i32(b)) == b,
        i64_of_bits(u64_bits_of_i64(c)) == c,
{
}

/// Reading a string length per the variant rule table: a 16-bit word
/// under the fixed-width variants, an unsigned varint under the network
/// variant. Yields the byte count and how many bytes the field took.
pub open spec fn dec_strlen(b: Seq<u8>, var: Variant) -> Option<(nat, int)> {
    match var {
        Variant::BigEndian => if b.len() >= 2 {
            Option::Some((dec_be16(b.subrange(0, 2)), 2))
        } else {
            Option::None
        },
        Variant::LittleEndian => if b.len() >= 2 {
            Option::Some((dec_le16(b.subrange(0, 2)), 2))
        } else {
            Option::None
        },
        Variant::NetworkEndian => dec_varint(b),
    }
}

/// Reading a whole string field: its length, then that many bytes decoded
/// as UTF-8.
pub open spec fn dec_string(b: Seq<u8>, var: Variant) -> Option<(Seq<char>, int)> {
    match dec_strlen(b, var) {
        Option::None => Option::None,
        Option::Some((n, c)) => if b.len() >= c + n && valid_utf8(
            b.subrange(c, c + n as int),
        ) {
            Option::Some((decode_utf8(b.subrange(c, c + n as int)), c + n))
        } else {
            Option::None
        },
    }
}

/// A written string is read back exactly, character for character, under
/// every variant, whatever follows in the stream — provided its UTF-8
/// byte count fits the variant's length field, as it must in a conforming
/// document.
pub proof fn lemma_string_round_trip(s: Seq<char>, var: Variant, rest: Seq<u8>)
    requires
        var is NetworkEndian ==> encode_utf8(s).len() < 0x100000000,
        !(var is NetworkEndian) ==> encode_utf8(s).len() < 0x10000,
    ensures
        ({
            let field = render(str_toks(s), var);
            dec_string(field + rest, var) == Option::Some((s, field.len() as int))
        }),
{
    let bytes = encode_utf8(s);
    let n = bytes.len();
    lemma_render_two(Token::StrLen(n), Token::Fixed(bytes), var);
    let lenb = render_token(Token::StrLen(n), var);
    let field = render(str_toks(s), var);
    let b = field + rest;
    assert(field == lenb + bytes);
    encode_utf8_valid_utf8(s);
    encode_utf8_decode_utf8(s);
    match var {
        Variant::BigEndian => {
            lemma_16_round_trip(low16(n));
            assert(b.subrange(0, 2) =~= be16(low16(n)));
            assert(b.subrange(2, 2 + n as int) =~= bytes);
        },
        Variant::LittleEndian => {
            lemma_16_round_trip(low16(n));
            assert(b.subrange(0, 2) =~= le16(low16(n)));
            assert(b.subrange(2, 2 + n as int) =~= bytes);
        },
        Variant::NetworkEndian => {
            assert(n % 0x100000000 == n);
            lemma_varint_round_trip(n, bytes + rest);
            assert(varint(n) + (bytes + rest) =~= b);
            let c = varint(n).len() as int;
            assert(b.subrange(c, c + n as int) =~= bytes);
        },
    }
}

/// Reading an array or list count per the variant rule table: a 32-bit
/// word under the fixed-width variants, a zigzagged varint under the
/// network variant; a negative count is refused.
pub open spec fn dec_count(b: Seq<u8>, var: Variant) -> Option<(nat, int)> {
    match var {
        Variant::BigEndian => if b.len() >= 4 && dec_be32(b.subrange(0, 4)) < 0x80000000 {
            Option::Some((dec_be32(b.subrange(0, 4)), 4))
        } else {
            Option::None
        },
        Variant::LittleEndian => if b.len() >= 4 && dec_le32(b.subrange(0, 4)) < 0x80000000 {
            Option::Some((dec_le32(b.subrange(0, 4)), 4))
        } else {
            Option::None
        },
        Variant::NetworkEndian => match dec_varint(b) {
            Option::None => Option::None,
            Option::Some((m, c)) => if unzigzag32(m) >= 0 {
                Option::Some((unzigzag32(m) as nat, c))
            } else {
                Option::None
            },
        },
    }
}

/// Reading a whole byte-array field: its count, then that many raw bytes.
pub open spec fn dec_byte_array(b: Seq<u8>, var: Variant) -> Option<(Seq<u8>, int)> {
    match dec_count(b, var) {
        Option::None => Option::None,
        Option::Some((n, c)) => if b.len() >= c + n {
            Option::Some((b.subrange(c, c + n as int), c + n))
        } else {
            Option::None
        },
    }
}

/// A written byte array is read back byte for byte under every variant,
/// whatever follows in the stream — provided its count fits a signed
/// 32-bit field, as it must in a conforming document.
pub proof fn lemma_byte_array_round_trip(bs: Seq<u8>, var: Variant, rest: Seq<u8>)
    requires
        bs.len() < 0x80000000,
    ensures
        ({
            let field = render(seq![Token::Count(bs.len()), Token::Fixed(bs)], var);
            dec_byte_array(field + rest, var) == Option::Some((bs, field.len() as int))
        }),
{
    let n = bs.len();
    lemma_render_two(Token::Count(n), Token::Fixed(bs), var);
    let field = render(seq![Token::Count(n), Token::Fixed(bs)], var);
    let b = field + rest;
    assert(low32(n) == n);
    match var {
        Variant::BigEndian => {
            lemma_32_round_trip(low32(n));
            assert(b.subrange(0, 4) =~= be32(low32(n)));
            assert(b.subrange(4, 4 + n as int) =~= bs);
        },
        Variant::LittleEndian => {
            lemma_32_round_trip(low32(n));
            assert(b.subrange(0, 4) =~= le32(low32(n)));
            assert(b.subrange(4, 4 + n as int) =~= bs);
        },
        Variant::NetworkEndian => {
            let v = i32_of_bits(low32(n));
            assert(v as int == n);
            lemma_zigzag32_round_trip(v);
            lemma_varint_round_trip(zigzag32(v), bs + rest);
            assert(varint(zigzag32(v)) + (bs + rest) =~= b);
            let c = varint(zigzag32(v)).len() as int;
            assert(b.subrange(c, c + n as int) =~= bs);
        },
    }
}

/// What a conforming decoder yields: the wire does not distinguish maps
/// from structs (both arrive as compounds), booleans from bytes, or a
/// present optional from the value it wrapped, so the decoded tree speaks
/// only of what the bytes say.
pub enum Node {
    Byte(i8),
    Short(i16),
    Int(i32),
    Long(i64),
    Float(u32),
    Double(u64),
    Str(Seq<char>),
    ByteArray(Seq<u8>),
    List(Seq<Node>),
    Compound(Seq<(Seq<char>, Node)>),
}

/// The signed 8-bit value with the same bits as `x`.
pub open spec fn i8_of_bits(x: u8) -> i8 {
    if x < 0x80 {
        x as i8
    } else {
        (x - 0x100) as i8
    }
}

/// The image of a value on the wire: what a decoder gives back for it.
pub open spec fn norm(v: ValueModel) -> Node
    decreases v, 0int,
{
    match v {
        ValueModel::Bool(b) => Node::Byte(if b { 1i8 } else { 0i8 }),
        ValueModel::Byte(x) => Node::Byte(x),
        ValueModel::Short(x) => Node::Short(x),
        ValueModel::Int(x) => Node::Int(x),
        ValueModel::Long(x) => Node::Long(x),
        ValueModel::Float(b) => Node::Float(b),
        ValueModel::Double(b) => Node::Double(b),
        ValueModel::Str(s) => Node::Str(s),
        ValueModel::ByteArray(bs) => Node::ByteArray(bs),
        ValueModel::List(es) => Node::List(norm_elems(es)),
        ValueModel::Compound(en) => Node::Compound(norm_entries(en)),
        ValueModel::Struct(_, fs) => Node::Compound(norm_fields(fs)),
        ValueModel::OptPresent(b) => norm(*b),
        _ => Node::Byte(0),
    }
}

pub open spec fn norm_elems(es: Seq<ValueModel>) -> Seq<Node>
    decreases es, 1int,
{
    if es.len() == 0 {
        Seq::empty()
    } else {
        seq![norm(es[0])] + norm_elems(es.subrange(1, es.len() as int))
    }
}

pub open spec fn norm_entries(en: Seq<(ValueModel, ValueModel)>) -> Seq<(Seq<char>, Node)>
    decreases en, 1int,
{
    if en.len() == 0 {
        Seq::empty()
    } else {
        seq![(str_of(en[0].0), norm(en[0].1))] + norm_entries(en.subrange(1, en.len() as int))
    }
}

/// Fields holding an absent optional vanish from the wire, so they vanish
/// from the decoded image too.
pub open spec fn norm_fields(fs: Seq<(Seq<char>, ValueModel)>) -> Seq<(Seq<char>, Node)>
    decreases fs, 1int,
{
    if fs.len() == 0 {
        Seq::empty()
    } else {
        let rest = norm_fields(fs.subrange(1, fs.len() as int));
        if fs[0].1 is OptAbsent {
            rest
        } else {
            seq![(fs[0].0, norm(fs[0].1))] + rest
        }
    }
}

pub open spec fn str_of(v: ValueModel) -> Seq<char> {
    match v {
        ValueModel::Str(s) => s,
        _ => Seq::empty(),
    }
}

/// Whether a string's byte count fits the variant's length field.
pub open spec fn name_fits(s: Seq<char>, var: Variant) -> bool {
    if var is NetworkEndian {
        encode_utf8(s).len() < 0x100000000
    } else {
        encode_utf8(s).len() < 0x10000
    }
}

/// A value a conforming document can hold below the root: every length
/// fits its field, lists are non-empty and homogeneous (one element tag
/// and count serve the whole run), map keys are strings, and optionals
/// appear only inside struct fields.
pub open spec fn wf_value(v: ValueModel, var: Variant) -> bool
    decreases v, 0int,
{
    match v {
        ValueModel::Bool(_) => true,
        ValueModel::Byte(_) => true,
        ValueModel::Short(_) => true,
        ValueModel::Int(_) => true,
        ValueModel::Long(_) => true,
        ValueModel::Float(_) => true,
        ValueModel::Double(_) => true,
        ValueModel::Str(s) => name_fits(s, var),
        ValueModel::ByteArray(bs) => bs.len() < 0x80000000,
        ValueModel::List(es) => 0 < es.len() < 0x80000000 && wf_elems(es, var) && tags_all(
            es,
            tag_of(es[0]),
        ),
        ValueModel::Compound(en) => wf_entries(en, var),
        ValueModel::Struct(_, fs) => wf_fields(fs, var),
        _ => false,
    }
}

pub open spec fn wf_elems(es: Seq<ValueModel>, var: Variant) -> bool
    decreases es, 1int,
{
    if es.len() == 0 {
        true
    } else {
        wf_value(es[0], var) && wf_elems(es.subrange(1, es.len() as int), var)
    }
}

pub open spec fn tags_all(es: Seq<ValueModel>, t: u8) -> bool
    decreases es,
{
    if es.len() == 0 {
        true
    } else {
        tag_of(es[0]) == t && tags_all(es.subrange(1, es.len() as int), t)
    }
}

pub open spec fn wf_entries(en: Seq<(ValueModel, ValueModel)>, var: Variant) -> bool
    decreases en, 1int,
{
    if en.len() == 0 {
        true
    } else {
        (en[0].0 matches ValueModel::Str(s) && name_fits(s, var)) && wf_value(en[0].1, var)
            && wf_entries(en.subrange(1, en.len() as int), var)
    }
}

pub open spec fn wf_fields(fs: Seq<(Seq<char>, ValueModel)>, var: Variant) -> bool
    decreases fs, 2int,
{
    if fs.len() == 0 {
        true
    } else {
        name_fits(fs[0].0, var) && wf_field_value(fs[0].1, var) && wf_fields(
            fs.subrange(1, fs.len() as int),
            var,
        )
    }
}

pub open spec fn wf_field_value(v: ValueModel, var: Variant) -> bool
    decreases v, 1int,
{
    match v {
        ValueModel::OptAbsent => true,
        ValueModel::OptPresent(b) => !((*b) is OptPresent) && !((*b) is OptAbsent) && wf_value(
            *b,
            var,
        ),
        _ => wf_value(v, var),
    }
}

/// Reading one payload of the given tag from the head of a stream:
/// the node and how many bytes it took, or nothing where the stream is
/// not a conforming document's.
pub open spec fn dec_value(tag: u8, b: Seq<u8>, var: Variant) -> Option<(Node, int)>
    decreases b.len(), 1int,
{
    if tag == TAG_BYTE {
        if b.len() >= 1 {
            Option::Some((Node::Byte(i8_of_bits(b[0])), 1))
        } else {
            Option::None
        }
    } else if tag == TAG_SHORT {
        if b.len() >= 2 {
            let w = if var is BigEndian {
                dec_be16(b.subrange(0, 2))
            } else {
                dec_le16(b.subrange(0, 2))
            };
            Option::Some((Node::Short(i16_of_bits(w as u16)), 2))
        } else {
            Option::None
        }
    } else if tag == TAG_INT {
        match var {
            Variant::BigEndian => if b.len() >= 4 {
                Option::Some((Node::Int(i32_of_bits(dec_be32(b.subrange(0, 4)) as u32)), 4))
            } else {
                Option::None
            },
            Variant::LittleEndian => if b.len() >= 4 {
                Option::Some((Node::Int(i32_of_bits(dec_le32(b.subrange(0, 4)) as u32)), 4))
            } else {
                Option::None
            },
            Variant::NetworkEndian => match dec_varint(b) {
                Option::None => Option::None,
                Option::Some((m, c)) => if -0x80000000 <= unzigzag32(m) < 0x80000000 {
                    Option::Some((Node::Int(unzigzag32(m) as i32), c))
                } else {
                    Option::None
                },
            },
        }
    } else if tag == TAG_LONG {
        match var {
            Variant::BigEndian => if b.len() >= 8 {
                Option::Some((Node::Long(i64_of_bits(dec_be64(b.subrange(0, 8)) as u64)), 8))
            } else {
                Option::None
            },
            Variant::LittleEndian => if b.len() >= 8 {
                Option::Some((Node::Long(i64_of_bits(dec_le64(b.subrange(0, 8)) as u64)), 8))
            } else {
                Option::None
            },
            Variant::NetworkEndian => match dec_varint(b) {
                Option::None => Option::None,
                Option::Some((m, c)) => if -0x8000000000000000 <= unzigzag64(m)
                    < 0x8000000000000000 {
                    Option::Some((Node::Long(unzigzag64(m) as i64), c))
                } else {
                    Option::None
                },
            },
        }
    } else if tag == TAG_FLOAT {
        if b.len() >= 4 {
            let w = if var is BigEndian {
                dec_be32(b.subrange(0, 4))
            } else {
                dec_le32(b.subrange(0, 4))
            };
            Option::Some((Node::Float(w as u32), 4))
        } else {
            Option::None
        }
    } else if tag == TAG_DOUBLE {
        if b.len() >= 8 {
            let w = if var is BigEndian {
                dec_be64(b.subrange(0, 8))
            } else {
                dec_le64(b.subrange(0, 8))
            };
            Option::Some((Node::Double(w as u64), 8))
        } else {
            Option::None
        }
    } else if tag == TAG_STRING {
        match dec_string(b, var) {
            Option::None => Option::None,
            Option::Some((s, c)) => Option::Some((Node::Str(s), c)),
        }
    } else if tag == TAG_BYTE_ARRAY {
        match dec_byte_array(b, var) {
            Option::None => Option::None,
            Option::Some((bs, c)) => Option::Some((Node::ByteArray(bs), c)),
        }
    } else if tag == TAG_LIST {
        if b.len() >= 1 {
            let et = b[0];
            match dec_count(b.subrange(1, b.len() as int), var) {
                Option::None => Option::None,
                Option::Some((n, c)) => if n >= 1 && 1 <= c && 1 + c <= b.len() {
                    match dec_elems(et, n, b.subrange(1 + c, b.len() as int), var) {
                        Option::None => Option::None,
                        Option::Some((items, c2)) => Option::Some(
                            (Node::List(items), 1 + c + c2),
                        ),
                    }
                } else {
                    Option::None
                },
            }
        } else {
            Option::None
        }
    } else if tag == TAG_COMPOUND {
        match dec_entries(b, var) {
            Option::None => Option::None,
            Option::Some((fields, c)) => Option::Some((Node::Compound(fields), c)),
        }
    } else {
        Option::None
    }
}

/// Reading `n` payloads of one element tag, back to back.
pub open spec fn dec_elems(et: u8, n: nat, b: Seq<u8>, var: Variant) -> Option<(Seq<Node>, int)>
    decreases b.len(), 2 + n,
{
    if n == 0 {
        Option::Some((Seq::empty(), 0))
    } else {
        match dec_value(et, b, var) {
            Option::None => Option::None,
            Option::Some((node, c)) => if 1 <= c <= b.len() {
                match dec_elems(et, (n - 1) as nat, b.subrange(c, b.len() as int), var) {
                    Option::None => Option::None,
                    Option::Some((rest, c2)) => Option::Some((seq![node] + rest, c + c2)),
                }
            } else {
                Option::None
            },
        }
    }
}

/// Reading named, tagged entries until one `End` byte closes the
/// compound.
pub open spec fn dec_entries(b: Seq<u8>, var: Variant) -> Option<(Seq<(Seq<char>, Node)>, int)>
    decreases b.len(), 0int,
{
    if b.len() == 0 {
        Option::None
    } else if b[0] == TAG_END {
        Option::Some((Seq::empty(), 1))
    } else {
        let tag = b[0];
        match dec_string(b.subrange(1, b.len() as int), var) {
            Option::None => Option::None,
            Option::Some((name, c)) => if 1 <= c && 1 + c <= b.len() {
                match dec_value(tag, b.subrange(1 + c, b.len() as int), var) {
                    Option::None => Option::None,
                    Option::Some((node, c2)) => if 1 <= c2 && 1 + c + c2 <= b.len() {
                        match dec_entries(b.subrange(1 + c + c2, b.len() as int), var) {
                            Option::None => Option::None,
                            Option::Some((rest, c3)) => Option::Some(
                                (seq![(name, node)] + rest, 1 + c + c2 + c3),
                            ),
                        }
                    } else {
                        Option::None
                    },
                }
            } else {
                Option::None
            },
        }
    }
}

/// The probe accepts every well-formed value and announces a non-`End`
/// tag for it.
proof fn lemma_probe_of_wf(v: ValueModel, var: Variant)
    requires
        wf_value(v, var),
    ensures
        probe_result(v) == Option::Some(Option::Some(tag_of(v))),
        1 <= tag_of(v) <= 10,
{
}

/// A written count field is read back exactly, whatever follows.
proof fn lemma_count_round_trip(n: nat, var: Variant, rest: Seq<u8>)
    requires
        n < 0x80000000,
    ensures
        ({
            let cb = render_token(Token::Count(n), var);
            dec_count(cb + rest, var) == Option::Some((n, cb.len() as int)) && cb.len() >= 1
        }),
{
    let cb = render_token(Token::Count(n), var);
    let b = cb + rest;
    assert(low32(n) == n);
    match var {
        Variant::BigEndian => {
            lemma_32_round_trip(low32(n));
            assert(b.subrange(0, 4) =~= be32(low32(n)));
        },
        Variant::LittleEndian => {
            lemma_32_round_trip(low32(n));
            assert(b.subrange(0, 4) =~= le32(low32(n)));
        },
        Variant::NetworkEndian => {
            let v = i32_of_bits(low32(n));
            assert(v as int == n);
            lemma_zigzag32_round_trip(v);
            lemma_varint_round_trip(zigzag32(v), rest);
            assert(varint(zigzag32(v)) + rest =~= b);
        },
    }
}


#[verifier::rlimit(100)]
#[verifier::spinoff_prover]
proof fn lemma_short_round_trip(x: i16, var: Variant, rest: Seq<u8>)
    ensures
        ({
            let field = render(seq![Token::I16(x)], var);
            dec_value(TAG_SHORT, field + rest, var) == Option::Some(
                (Node::Short(x), field.len() as int),
            ) && field.len() >= 1
        }),
{
    lemma_render_one(Token::I16(x), var);
    let field = render_token(Token::I16(x), var);
    lemma_16_round_trip(u16_bits_of_i16(x));
    if var is BigEndian {
        assert((field + rest).subrange(0, 2) =~= be16(u16_bits_of_i16(x)));
    } else {
        assert((field + rest).subrange(0, 2) =~= le16(u16_bits_of_i16(x)));
    }
}

#[verifier::rlimit(100)]
#[verifier::spinoff_prover]
proof fn lemma_int_round_trip(x: i32, var: Variant, rest: Seq<u8>)
    ensures
        ({
            let field = render(seq![Token::I32(x)], var);
            dec_value(TAG_INT, field + rest, var) == Option::Some(
                (Node::Int(x), field.len() as int),
            ) && field.len() >= 1
        }),
{
    lemma_render_one(Token::I32(x), var);
    let field = render_token(Token::I32(x), var);
    match var {
        Variant::BigEndian => {
            lemma_32_round_trip(u32_bits_of_i32(x));
            assert((field + rest).subrange(0, 4) =~= be32(u32_bits_of_i32(x)));
        },
        Variant::LittleEndian => {
            lemma_32_round_trip(u32_bits_of_i32(x));
            assert((field + rest).subrange(0, 4) =~= le32(u32_bits_of_i32(x)));
        },
        Variant::NetworkEndian => {
            lemma_zigzag32_round_trip(x);
            lemma_varint_round_trip(zigzag32(x), rest);
            assert(varint(zigzag32(x)) + rest =~= field + rest);
        },
    }
}

#[verifier::rlimit(100)]
#[verifier::spinoff_prover]
proof fn lemma_long_round_trip(x: i64, var: Variant, rest: Seq<u8>)
    ensures
        ({
            let field = render(seq![Token::I64(x)], var);
            dec_value(TAG_LONG, field + rest, var) == Option::Some(
                (Node::Long(x), field.len() as int),
            ) && field.len() >= 1
        }),
{
    lemma_render_one(Token::I64(x), var);
    let field = render_token(Token::I64(x), var);
    match var {
        Variant::BigEndian => {
            lemma_64_round_trip(u64_bits_of_i64(x));
            assert((field + rest).subrange(0, 8) =~= be64(u64_bits_of_i64(x)));
        },
        Variant::LittleEndian => {
            lemma_64_round_trip(u64_bits_of_i64(x));
            assert((field + rest).subrange(0, 8) =~= le64(u64_bits_of_i64(x)));
        },
        Variant::NetworkEndian => {
            lemma_zigzag64_round_trip(x);
            lemma_varint_round_trip(zigzag64(x), rest);
            assert(varint(zigzag64(x)) + rest =~= field + rest);
        },
    }
}

#[verifier::rlimit(100)]
#[verifier::spinoff_prover]
proof fn lemma_float_round_trip(bits: u32, var: Variant, rest: Seq<u8>)
    ensures
        ({
            let field = render(seq![Token::F32(bits)], var);
            dec_value(TAG_FLOAT, field + rest, var) == Option::Some(
                (Node::Float(bits), field.len() as int),
            ) && field.len() >= 1
        }),
{
    lemma_render_one(Token::F32(bits), var);
    let field = render_token(Token::F32(bits), var);
    lemma_32_round_trip(bits);
    if var is BigEndian {
        assert((field + rest).subrange(0, 4) =~= be32(bits));
    } else {
        assert((field + rest).subrange(0, 4) =~= le32(bits));
    }
}

#[verifier::rlimit(100)]
#[verifier::spinoff_prover]
proof fn lemma_double_round_trip(bits: u64, var: Variant, rest: Seq<u8>)
    ensures
        ({
            let field = render(seq![Token::F64(bits)], var);
            dec_value(TAG_DOUBLE, field + rest, var) == Option::Some(
                (Node::Double(bits), field.len() as int),
            ) && field.len() >= 1
        }),
{
    lemma_render_one(Token::F64(bits), var);
    let field = render_token(Token::F64(bits), var);
    lemma_64_round_trip(bits);
    if var is BigEndian {
        assert((field + rest).subrange(0, 8) =~= be64(bits));
    } else {
        assert((field + rest).subrange(0, 8) =~= le64(bits));
    }
}

/// The heart of the round trip: a well-formed payload, written under any
/// variant and followed by anything at all, is read back as its wire
/// image, consuming exactly its own bytes.
#[verifier::rlimit(100)]
#[verifier::spinoff_prover]
pub proof fn lemma_value_round_trip(v: ValueModel, var: Variant, rest: Seq<u8>)
    requires
        wf_value(v, var),
    ensures
        toks_value(v, true) is Some,
        ({
            let field = render(toks_value(v, true)->Some_0, var);
            dec_value(tag_of(v), field + rest, var) == Option::Some(
                (norm(v), field.len() as int),
            ) && field.len() >= 1
        }),
    decreases v, 0int,
{
    match v {
        ValueModel::Bool(x) => {
            lemma_render_one(Token::Fixed(seq![if x { 1u8 } else { 0u8 }]), var);
        },
        ValueModel::Byte(x) => {
            lemma_render_one(Token::Fixed(seq![crate::bytes::u8_bits_of_i8(x)]), var);
        },
        ValueModel::Short(x) => {
            lemma_short_round_trip(x, var, rest);
        },
        ValueModel::Int(x) => {
            lemma_int_round_trip(x, var, rest);
        },
        ValueModel::Long(x) => {
            lemma_long_round_trip(x, var, rest);
        },
        ValueModel::Float(bits) => {
            lemma_float_round_trip(bits, var, rest);
        },
        ValueModel::Double(bits) => {
            lemma_double_round_trip(bits, var, rest);
        },
        ValueModel::Str(s) => {
            lemma_string_round_trip(s, var, rest);
            lemma_render_two(Token::StrLen(encode_utf8(s).len()), Token::Fixed(encode_utf8(s)), var);
        },
        ValueModel::ByteArray(bs) => {
            lemma_byte_array_round_trip(bs, var, rest);
            lemma_render_two(Token::Count(bs.len()), Token::Fixed(bs), var);
        },
        ValueModel::List(es) => {
            lemma_list_round_trip(es, var, rest);
        },
        ValueModel::Compound(en) => {
            lemma_entries_round_trip(en, var, rest);
            let body_toks = toks_entries(en)->Some_0;
            let ts = toks_value(v, true)->Some_0;
            assert(ts == Seq::<Token>::empty() + body_toks + seq![tag_tok(TAG_END)]);
            assert(Seq::<Token>::empty() + body_toks =~= body_toks);
            lemma_render_concat(body_toks, seq![tag_tok(TAG_END)], var);
            lemma_render_one(tag_tok(TAG_END), var);
            let body = render(body_toks, var);
            assert(render(ts, var) == body + seq![TAG_END]);
            assert((body + seq![TAG_END]) + rest =~= body + seq![TAG_END] + rest);
        },
        ValueModel::Struct(nm, fs) => {
            lemma_fields_round_trip(fs, var, rest);
            let body_toks = toks_fields(fs)->Some_0;
            let ts = toks_value(v, true)->Some_0;
            assert(ts == Seq::<Token>::empty() + body_toks + seq![tag_tok(TAG_END)]);
            assert(Seq::<Token>::empty() + body_toks =~= body_toks);
            lemma_render_concat(body_toks, seq![tag_tok(TAG_END)], var);
            lemma_render_one(tag_tok(TAG_END), var);
            let body = render(body_toks, var);
            assert(render(ts, var) == body + seq![TAG_END]);
            assert((body + seq![TAG_END]) + rest =~= body + seq![TAG_END] + rest);
        },
        _ => {},
    }
}



/// Pure stream algebra: a list field decodes once its count field and its
/// element run decode.
#[verifier::rlimit(100)]
#[verifier::spinoff_prover]
proof fn lemma_dec_list_compose(
    t0: u8,
    n: nat,
    cb: Seq<u8>,
    body: Seq<u8>,
    items: Seq<Node>,
    rest: Seq<u8>,
    var: Variant,
)
    requires
        1 <= n < 0x80000000,
        dec_count(cb + (body + rest), var) == Option::Some((n, cb.len() as int)),
        cb.len() >= 1,
        dec_elems(t0, n, body + rest, var) == Option::Some((items, body.len() as int)),
    ensures
        dec_value(TAG_LIST, (seq![t0] + (cb + body)) + rest, var) == Option::Some(
            (Node::List(items), 1 + cb.len() as int + body.len() as int),
        ),
{
    let b = (seq![t0] + (cb + body)) + rest;
    assert(b[0] == t0);
    assert(b.subrange(1, b.len() as int) =~= cb + (body + rest));
    assert(b.subrange(1 + cb.len() as int, b.len() as int) =~= body + rest);
}

/// The list case of the round trip, separated: element tag, count, then
/// the payloads back to back.
#[verifier::rlimit(100)]
#[verifier::spinoff_prover]
proof fn lemma_list_round_trip(es: Seq<ValueModel>, var: Variant, rest: Seq<u8>)
    requires
        0 < es.len() < 0x80000000,
        wf_elems(es, var),
        tags_all(es, tag_of(es[0])),
    ensures
        toks_value(ValueModel::List(es), true) is Some,
        ({
            let field = render(toks_value(ValueModel::List(es), true)->Some_0, var);
            dec_value(TAG_LIST, field + rest, var) == Option::Some(
                (norm(ValueModel::List(es)), field.len() as int),
            ) && field.len() >= 1
        }),
    decreases es, 4int,
{
    let n = es.len();
    let t0 = tag_of(es[0]);
    lemma_probe_of_wf(es[0], var);
    lemma_elems_round_trip(es, t0, var, rest);
    crate::ser::lemma_rw_after_true(es[0]);
    let ptoks = toks_elems(es, 0, true)->Some_0;
    let body = render(ptoks, var);
    let pay0 = toks_value(es[0], true)->Some_0;
    let rtoks = toks_elems(es.subrange(1, n as int), 0, true)->Some_0;
    assert(toks_elems(es, n as nat, true) == Option::Some(
        seq![tag_tok(t0), Token::Count(n as nat)] + pay0 + rtoks,
    ));
    assert(ptoks == Seq::<Token>::empty() + pay0 + rtoks);
    let full = seq![tag_tok(t0), Token::Count(n as nat)] + pay0 + rtoks;
    assert(full =~= seq![tag_tok(t0)] + (seq![Token::Count(n as nat)] + ptoks));
    lemma_render_cons(tag_tok(t0), seq![Token::Count(n as nat)] + ptoks, var);
    lemma_render_cons(Token::Count(n as nat), ptoks, var);
    let cb = render_token(Token::Count(n as nat), var);
    let field = render(full, var);
    assert(field == seq![t0] + (cb + body));
    lemma_count_round_trip(n as nat, var, body + rest);
    lemma_dec_list_compose(t0, n as nat, cb, body, norm_elems(es), rest, var);

}

/// A run of well-formed, like-tagged element payloads is read back one by
/// one.
#[verifier::rlimit(100)]
#[verifier::spinoff_prover]
proof fn lemma_elems_round_trip(es: Seq<ValueModel>, et: u8, var: Variant, rest: Seq<u8>)
    requires
        wf_elems(es, var),
        tags_all(es, et),
    ensures
        toks_elems(es, 0, true) is Some,
        ({
            let body = render(toks_elems(es, 0, true)->Some_0, var);
            dec_elems(et, es.len(), body + rest, var) == Option::Some(
                (norm_elems(es), body.len() as int),
            )
        }),
    decreases es, 1int,
{
    if es.len() == 0 {
        assert(render(Seq::<Token>::empty(), var) =~= Seq::<u8>::empty());
        assert(Seq::<u8>::empty() + rest =~= rest);
    } else {
        let tail = es.subrange(1, es.len() as int);
        crate::ser::lemma_rw_after_true(es[0]);
        lemma_probe_of_wf(es[0], var);
        lemma_elems_round_trip(tail, et, var, rest);
        let pay0 = toks_value(es[0], true)->Some_0;
        let tail_body = render(toks_elems(tail, 0, true)->Some_0, var);
        lemma_value_round_trip(es[0], var, tail_body + rest);
        let f0 = render(pay0, var);
        assert(toks_elems(es, 0, true) == Option::Some(
            Seq::<Token>::empty() + pay0 + toks_elems(tail, 0, true)->Some_0,
        ));
        assert(Seq::<Token>::empty() + pay0 + toks_elems(tail, 0, true)->Some_0 =~= pay0
            + toks_elems(tail, 0, true)->Some_0);
        lemma_render_concat(pay0, toks_elems(tail, 0, true)->Some_0, var);
        let body = render(toks_elems(es, 0, true)->Some_0, var);
        assert(body == f0 + tail_body);
        assert(body + rest =~= f0 + (tail_body + rest));
        assert((body + rest).subrange(f0.len() as int, (body + rest).len() as int) =~= tail_body
            + rest);
        assert(norm_elems(es) == seq![norm(es[0])] + norm_elems(tail));
    }
}



/// Pure stream algebra: how one entry's tokens render, split at each part.
#[verifier::rlimit(100)]
#[verifier::spinoff_prover]
proof fn lemma_entry_render_split(tv: u8, kt: Seq<Token>, vt: Seq<Token>, tl: Seq<Token>, var: Variant)
    ensures
        render(seq![tag_tok(tv)] + kt + vt + tl, var) == seq![tv] + (render(kt, var) + (render(
            vt,
            var,
        ) + render(tl, var))),
{
    let full = seq![tag_tok(tv)] + kt + vt + tl;
    assert(full =~= seq![tag_tok(tv)] + (kt + (vt + tl)));
    lemma_render_cons(tag_tok(tv), kt + (vt + tl), var);
    lemma_render_concat(kt, vt + tl, var);
    lemma_render_concat(vt, tl, var);
}


/// Pure stream algebra: re-association of a five-part concatenation, as
/// the entry proofs need it.
#[verifier::spinoff_prover]
proof fn lemma_concat_reassoc5(
    a: Seq<u8>,
    b: Seq<u8>,
    c: Seq<u8>,
    d: Seq<u8>,
    e: Seq<u8>,
    r: Seq<u8>,
)
    ensures
        ((a + (b + (c + d))) + e) + r == a + (b + (c + ((d + e) + r))),
{
    vstd::seq_lib::lemma_concat_associative(c, d, e);
    vstd::seq_lib::lemma_concat_associative(b, c + d, e);
    vstd::seq_lib::lemma_concat_associative(a, b + (c + d), e);
    vstd::seq_lib::lemma_concat_associative(c, d + e, r);
    vstd::seq_lib::lemma_concat_associative(b, c + (d + e), r);
    vstd::seq_lib::lemma_concat_associative(a, b + (c + (d + e)), r);
}

/// One decoded compound entry, separated: a non-`End` tag byte, a name
/// whose field reads back exactly, a payload that reads back exactly, and
/// a correctly decoded remainder compose to a correctly decoded entry run.
#[verifier::rlimit(100)]
#[verifier::spinoff_prover]
proof fn lemma_dec_entry_step(
    tv: u8,
    name: Seq<char>,
    nb: Seq<u8>,
    node: Node,
    pb: Seq<u8>,
    tail_entries: Seq<(Seq<char>, Node)>,
    c3: int,
    tb: Seq<u8>,
    var: Variant,
)
    requires
        1 <= tv <= 10,
        dec_string(nb + (pb + tb), var) == Option::Some((name, nb.len() as int)),
        dec_value(tv, pb + tb, var) == Option::Some((node, pb.len() as int)),
        nb.len() >= 1,
        pb.len() >= 1,
        dec_entries(tb, var) == Option::Some((tail_entries, c3)),
    ensures
        dec_entries(seq![tv] + (nb + (pb + tb)), var) == Option::Some(
            (seq![(name, node)] + tail_entries, 1 + nb.len() as int + pb.len() as int + c3),
        ),
{
    let b = seq![tv] + (nb + (pb + tb));
    assert(b[0] == tv);
    assert(b.subrange(1, b.len() as int) =~= nb + (pb + tb));
    assert(b.subrange(1 + nb.len() as int, b.len() as int) =~= pb + tb);
    assert(b.subrange(1 + nb.len() as int + pb.len() as int, b.len() as int) =~= tb);
}

/// A run of well-formed map entries, closed by one `End` byte, is read
/// back entry by entry.
#[verifier::rlimit(100)]
#[verifier::spinoff_prover]
proof fn lemma_entries_round_trip(en: Seq<(ValueModel, ValueModel)>, var: Variant, rest: Seq<u8>)
    requires
        wf_entries(en, var),
    ensures
        toks_entries(en) is Some,
        ({
            let body = render(toks_entries(en)->Some_0, var);
            dec_entries(body + seq![TAG_END] + rest, var) == Option::Some(
                (norm_entries(en), body.len() as int + 1),
            )
        }),
    decreases en, 1int,
{
    if en.len() == 0 {
        assert(render(Seq::<Token>::empty(), var) =~= Seq::<u8>::empty());
        assert(Seq::<u8>::empty() + seq![TAG_END] + rest =~= seq![TAG_END] + rest);
        assert((seq![TAG_END] + rest)[0] == TAG_END);
    } else {
        lemma_entries_round_trip(en.subrange(1, en.len() as int), var, rest);
        lemma_entries_cons(en, var, rest);
    }
}

/// One entry prepended to a correctly decoded run of entries.
#[verifier::rlimit(100)]
#[verifier::spinoff_prover]
proof fn lemma_entries_cons(en: Seq<(ValueModel, ValueModel)>, var: Variant, rest: Seq<u8>)
    requires
        en.len() > 0,
        wf_entries(en, var),
        toks_entries(en.subrange(1, en.len() as int)) is Some,
        ({
            let tb = render(toks_entries(en.subrange(1, en.len() as int))->Some_0, var);
            dec_entries(tb + seq![TAG_END] + rest, var) == Option::Some(
                (norm_entries(en.subrange(1, en.len() as int)), tb.len() as int + 1),
            )
        }),
    ensures
        toks_entries(en) is Some,
        ({
            let body = render(toks_entries(en)->Some_0, var);
            dec_entries(body + seq![TAG_END] + rest, var) == Option::Some(
                (norm_entries(en), body.len() as int + 1),
            )
        }),
    decreases en, 0int,
{
        let tail = en.subrange(1, en.len() as int);
        let k = str_of(en[0].0);
        let val = en[0].1;
        let tv = tag_of(val);
        lemma_probe_of_wf(val, var);
        let kt = str_toks(k);
        let tail_toks = toks_entries(tail)->Some_0;
        let tb = render(tail_toks, var);
        let t2 = tb + seq![TAG_END] + rest;
        lemma_value_round_trip(val, var, t2);
        let vt = toks_value(val, true)->Some_0;
        let vb = render(vt, var);
        let kb = render(kt, var);
        lemma_string_round_trip(k, var, vb + t2);
        assert(toks_value(en[0].0, true) == Option::Some(kt));
        assert(toks_entries(en) == Option::Some(
            seq![tag_tok(tv)] + kt + vt + tail_toks,
        ));
        let full = seq![tag_tok(tv)] + kt + vt + tail_toks;
        lemma_entry_render_split(tv, kt, vt, tail_toks, var);
        let body = render(full, var);
        assert(body == seq![tv] + (kb + (vb + tb)));
        lemma_dec_entry_step(
            tv,
            k,
            kb,
            norm(val),
            vb,
            norm_entries(tail),
            tb.len() as int + 1,
            t2,
            var,
        );
        lemma_concat_reassoc5(seq![tv], kb, vb, tb, seq![TAG_END], rest);
        assert(body + seq![TAG_END] + rest == seq![tv] + (kb + (vb + t2)));
        assert(norm_entries(en) == seq![(k, norm(val))] + norm_entries(tail));
}

/// A run of well-formed struct fields, closed by one `End` byte, is read
/// back as the named entries of the fields that were not omitted.
#[verifier::rlimit(100)]
#[verifier::spinoff_prover]
proof fn lemma_fields_round_trip(fs: Seq<(Seq<char>, ValueModel)>, var: Variant, rest: Seq<u8>)
    requires
        wf_fields(fs, var),
    ensures
        toks_fields(fs) is Some,
        ({
            let body = render(toks_fields(fs)->Some_0, var);
            dec_entries(body + seq![TAG_END] + rest, var) == Option::Some(
                (norm_fields(fs), body.len() as int + 1),
            )
        }),
    decreases fs, 3int,
{
    if fs.len() == 0 {
        assert(render(Seq::<Token>::empty(), var) =~= Seq::<u8>::empty());
        assert(Seq::<u8>::empty() + seq![TAG_END] + rest =~= seq![TAG_END] + rest);
        assert((seq![TAG_END] + rest)[0] == TAG_END);
    } else {
        let tail = fs.subrange(1, fs.len() as int);
        let name = fs[0].0;
        let fv = fs[0].1;
        lemma_fields_round_trip(tail, var, rest);
        let tail_toks = toks_fields(tail)->Some_0;
        if fv is OptAbsent {
            assert(field_step(name, fv) == Option::Some(Seq::<Token>::empty()));
            assert(toks_fields(fs) == Option::Some(Seq::<Token>::empty() + tail_toks));
            assert(Seq::<Token>::empty() + tail_toks =~= tail_toks);
            assert(norm_fields(fs) == norm_fields(tail));
        } else {
            let pv = unwrap_field(fv);
            lemma_wf_field_probe(fv, pv, var);
            let tv = tag_of(fv);
            assert(tag_of(pv) == tv);
            let tb = render(tail_toks, var);
            let t2 = tb + seq![TAG_END] + rest;
            lemma_value_round_trip(pv, var, t2);
            let pay = toks_value(pv, true)->Some_0;
            let pb = render(pay, var);
            lemma_string_round_trip(name, var, pb + t2);
            let nb = render(str_toks(name), var);
            assert(field_step(name, fv) == Option::Some(
                seq![tag_tok(tv)] + str_toks(name) + pay,
            ));
            let ft = seq![tag_tok(tv)] + str_toks(name) + pay;
            assert(toks_fields(fs) == Option::Some(ft + tail_toks));
            lemma_entry_render_split(tv, str_toks(name), pay, tail_toks, var);
            assert(ft + tail_toks =~= seq![tag_tok(tv)] + str_toks(name) + pay + tail_toks);
            let body = render(ft + tail_toks, var);
            assert(body == seq![tv] + (nb + (pb + tb)));
            lemma_dec_entry_step(
                tv,
                name,
                nb,
                norm(pv),
                pb,
                norm_fields(tail),
                tb.len() as int + 1,
                t2,
                var,
            );
            lemma_concat_reassoc5(seq![tv], nb, pb, tb, seq![TAG_END], rest);
            assert(body + seq![TAG_END] + rest == seq![tv] + (nb + (pb + t2)));
            assert(norm(fv) == norm(pv));
            assert(norm_fields(fs) == seq![(name, norm(fv))] + norm_fields(tail));
        }
    }
}

/// For a field kept on the wire, the probe's tag is the unwrapped value's
/// tag, and the unwrapped value is well-formed.
proof fn lemma_wf_field_probe(fv: ValueModel, pv: ValueModel, var: Variant)
    requires
        wf_field_value(fv, var),
        !(fv is OptAbsent),
        pv == unwrap_field(fv),
    ensures
        wf_value(pv, var),
        probe_result(fv) == Option::Some(Option::Some(tag_of(pv))),
        tag_of(fv) == tag_of(pv),
        1 <= tag_of(pv) <= 10,
        norm(fv) == norm(pv),
    decreases fv,
{
    match fv {
        ValueModel::OptPresent(bx) => {
            lemma_probe_of_wf(*bx, var);
        },
        _ => {
            lemma_probe_of_wf(fv, var);
        },
    }
}

/// Reading a whole document: the root `Compound` tag, the root's name,
/// then the root's entries through the closing `End`, with nothing left
/// over.
pub open spec fn dec_document(b: Seq<u8>, var: Variant) -> Option<
    (Seq<char>, Seq<(Seq<char>, Node)>),
> {
    if b.len() >= 1 && b[0] == TAG_COMPOUND {
        match dec_string(b.subrange(1, b.len() as int), var) {
            Option::None => Option::None,
            Option::Some((name, c)) => if 1 <= c && 1 + c <= b.len() {
                match dec_entries(b.subrange(1 + c, b.len() as int), var) {
                    Option::None => Option::None,
                    Option::Some((fields, c2)) => if 1 + c + c2 == b.len() {
                        Option::Some((name, fields))
                    } else {
                        Option::None
                    },
                }
            } else {
                Option::None
            },
        }
    } else {
        Option::None
    }
}

/// The document root's name on the wire: a struct's own name, an empty
/// name for a map.
pub open spec fn root_name(v: ValueModel) -> Seq<char> {
    match v {
        ValueModel::Struct(nm, _) => nm,
        _ => Seq::empty(),
    }
}

/// Round trip for whole documents: encoding any well-formed map- or
/// struct-rooted value under any variant and decoding the stream per the
/// same rule table gives back the root's name and the value's wire image
/// — struct and map alike as a compound, booleans as bytes, present
/// optionals as what they wrapped, absent optional fields gone.
#[verifier::rlimit(100)]
#[verifier::spinoff_prover]
pub proof fn lemma_document_round_trip(v: ValueModel, var: Variant)
    requires
        wf_value(v, var),
        v is Compound || v is Struct,
        name_fits(root_name(v), var),
    ensures
        crate::ser::doc_toks(v) is Some,
        norm(v) matches Node::Compound(fields) && dec_document(
            render(crate::ser::doc_toks(v)->Some_0, var),
            var,
        ) == Option::Some((root_name(v), fields)),
{
    let nm = root_name(v);
    let hdr = header_toks(nm);
    let body_toks = match v {
        ValueModel::Compound(en) => toks_entries(en)->Some_0,
        ValueModel::Struct(_, fs) => toks_fields(fs)->Some_0,
        _ => Seq::<Token>::empty(),
    };
    match v {
        ValueModel::Compound(en) => {
            lemma_entries_round_trip(en, var, Seq::empty());
        },
        ValueModel::Struct(_, fs) => {
            lemma_fields_round_trip(fs, var, Seq::empty());
        },
        _ => {},
    }
    let ts = crate::ser::doc_toks(v)->Some_0;
    assert(ts == hdr + body_toks + seq![tag_tok(TAG_END)]);
    assert(hdr == seq![tag_tok(TAG_COMPOUND)] + str_toks(nm));
    assert(ts =~= seq![tag_tok(TAG_COMPOUND)] + (str_toks(nm) + (body_toks + seq![
        tag_tok(TAG_END),
    ])));
    lemma_render_cons(
        tag_tok(TAG_COMPOUND),
        str_toks(nm) + (body_toks + seq![tag_tok(TAG_END)]),
        var,
    );
    lemma_render_concat(str_toks(nm), body_toks + seq![tag_tok(TAG_END)], var);
    lemma_render_concat(body_toks, seq![tag_tok(TAG_END)], var);
    lemma_render_one(tag_tok(TAG_END), var);
    let nb = render(str_toks(nm), var);
    let bb = render(body_toks, var);
    let b = render(ts, var);
    assert(b == seq![TAG_COMPOUND] + (nb + (bb + seq![TAG_END])));
    assert(b[0] == TAG_COMPOUND);
    lemma_string_round_trip(nm, var, bb + seq![TAG_END]);
    assert(b.subrange(1, b.len() as int) =~= nb + (bb + seq![TAG_END]));
    assert(b.subrange(1 + nb.len() as int, b.len() as int) =~= bb + seq![TAG_END] + Seq::<u8>::empty())
        by {
        assert(bb + seq![TAG_END] + Seq::<u8>::empty() =~= bb + seq![TAG_END]);
        assert(b.subrange(1 + nb.len() as int, b.len() as int) =~= bb + seq![TAG_END]);
    }
    assert(bb + seq![TAG_END] + Seq::<u8>::empty() =~= bb + seq![TAG_END]);
}

} // verus!
