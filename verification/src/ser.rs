//! The primary encoder: a depth-first traversal that writes tag bytes,
//! names, counts and payloads to the sink, following the active variant's
//! rule table. Its whole output is pinned down by the token-stream
//! functions below, which are shared with the probe and the laws.

use vstd::prelude::*;

use crate::bytes::{
    i32_from_bits, low16_of_len, low32_of_len, push_bytes, u8_bits_of_i8, u8_from_i8,
    write_i16_be, write_i16_le, write_i32_varint, write_i64_be, write_i64_le, write_i64_varint,
    write_u16_be, write_u16_le, write_u32_be, write_u32_le, write_u32_varint, write_u64_be,
    write_u64_le,
};
use crate::model::{
    models_of, probe_result, reject_kind, value_model, NbtError, ShapeKind, Value, ValueModel,
    Variant, TAG_COMPOUND, TAG_END,
};
use crate::tokens::{
    lemma_render_concat, lemma_render_cons, lemma_render_one, lemma_render_two, render,
    render_token, Token,
};
use vstd::string::StringSliceAdditionalSpecFns;
use vstd::utf8::encode_utf8;

verus! {

/// The token holding one tag byte.
pub open spec fn tag_tok(t: u8) -> Token {
    Token::Fixed(seq![t])
}

/// The tokens of a string payload: its UTF-8 byte length, then its UTF-8
/// bytes.
pub open spec fn str_toks(s: Seq<char>) -> Seq<Token> {
    seq![Token::StrLen(encode_utf8(s).len()), Token::Fixed(encode_utf8(s))]
}

/// The tokens of the document root header: a `Compound` tag and the root's
/// name, written once, before the first compound the encoder touches.
pub open spec fn header_toks(name: Seq<char>) -> Seq<Token> {
    seq![tag_tok(TAG_COMPOUND)] + str_toks(name)
}

/// Whether the payload path rejects `v` before writing any byte.
pub open spec fn immediate_reject(v: ValueModel) -> bool {
    match v {
        ValueModel::OptAbsent => true,
        ValueModel::OptPresent(_) => true,
        ValueModel::UShort(_) => true,
        ValueModel::UInt(_) => true,
        ValueModel::ULong(_) => true,
        ValueModel::Char(_) => true,
        ValueModel::Unit => true,
        _ => false,
    }
}

/// Whether the document root header has been written after the payload of
/// `v` is encoded, given whether it was written before. It is written by
/// the first compound or struct the traversal touches, at any depth.
pub open spec fn rw_after(v: ValueModel, rw: bool) -> bool
    decreases v,
{
    match v {
        ValueModel::Compound(_) => true,
        ValueModel::Struct(_, _) => true,
        ValueModel::List(es) => rw_after_elems(es, rw),
        ValueModel::OptPresent(b) => rw_after(*b, rw),
        _ => rw,
    }
}

/// `rw_after`, threaded left to right over list elements.
pub open spec fn rw_after_elems(es: Seq<ValueModel>, rw: bool) -> bool
    decreases es,
{
    if es.len() == 0 {
        rw
    } else {
        rw_after_elems(es.subrange(1, es.len() as int), rw_after(es[0], rw))
    }
}

/// Once the root header is written it stays written.
pub proof fn lemma_rw_after_true(v: ValueModel)
    ensures
        rw_after(v, true) == true,
    decreases v, 0int,
{
    match v {
        ValueModel::List(es) => {
            lemma_rw_after_elems_true(es);
        },
        ValueModel::OptPresent(b) => {
            lemma_rw_after_true(*b);
        },
        _ => {},
    }
}

pub proof fn lemma_rw_after_elems_true(es: Seq<ValueModel>)
    ensures
        rw_after_elems(es, true) == true,
    decreases es, 1int,
{
    if es.len() > 0 {
        lemma_rw_after_true(es[0]);
        lemma_rw_after_elems_true(es.subrange(1, es.len() as int));
    }
}

/// The token stream of the payload of `v`, or `None` where the traversal
/// runs into a shape the format cannot represent. `rw` says whether the
/// document root header was already written.
pub open spec fn toks_value(v: ValueModel, rw: bool) -> Option<Seq<Token>>
    decreases v, 0int,
{
    match v {
        ValueModel::Bool(b) => Option::Some(
            seq![Token::Fixed(seq![if b { 1u8 } else { 0u8 }])],
        ),
        ValueModel::Byte(x) => Option::Some(seq![Token::Fixed(seq![u8_bits_of_i8(x)])]),
        ValueModel::Short(x) => Option::Some(seq![Token::I16(x)]),
        ValueModel::Int(x) => Option::Some(seq![Token::I32(x)]),
        ValueModel::Long(x) => Option::Some(seq![Token::I64(x)]),
        ValueModel::Float(b) => Option::Some(seq![Token::F32(b)]),
        ValueModel::Double(b) => Option::Some(seq![Token::F64(b)]),
        ValueModel::Str(s) => Option::Some(str_toks(s)),
        ValueModel::ByteArray(bs) => Option::Some(
            seq![Token::Count(bs.len()), Token::Fixed(bs)],
        ),
        ValueModel::List(es) => toks_elems(es, es.len(), rw),
        ValueModel::Compound(en) => match toks_entries(en) {
            Option::None => Option::None,
            Option::Some(body) => Option::Some(
                (if !rw {
                    header_toks(Seq::empty())
                } else {
                    Seq::empty()
                }) + body + seq![tag_tok(TAG_END)],
            ),
        },
        ValueModel::Struct(name, fs) => match toks_fields(fs) {
            Option::None => Option::None,
            Option::Some(body) => Option::Some(
                (if !rw {
                    header_toks(name)
                } else {
                    Seq::empty()
                }) + body + seq![tag_tok(TAG_END)],
            ),
        },
        _ => Option::None,
    }
}

/// The token stream of a run of list elements, following the sequence state
/// machine: while `pending` is not zero the first element is probed for its
/// tag, the `(tag, count)` pair is written, and `pending` drops to zero; a
/// declared-zero-length sequence therefore contributes no bytes at all.
pub open spec fn toks_elems(es: Seq<ValueModel>, pending: nat, rw: bool) -> Option<Seq<Token>>
    decreases es, 1int,
{
    if es.len() == 0 {
        Option::Some(Seq::empty())
    } else {
        let head = es[0];
        let prefix: Option<Seq<Token>> = if pending != 0 {
            match probe_result(head) {
                Option::None => Option::None,
                Option::Some(Option::None) => Option::Some(seq![Token::Count(pending)]),
                Option::Some(Option::Some(t)) => Option::Some(
                    seq![tag_tok(t), Token::Count(pending)],
                ),
            }
        } else {
            Option::Some(Seq::empty())
        };
        match prefix {
            Option::None => Option::None,
            Option::Some(pre) => match toks_value(head, rw) {
                Option::None => Option::None,
                Option::Some(pay) => match toks_elems(
                    es.subrange(1, es.len() as int),
                    0,
                    rw_after(head, rw),
                ) {
                    Option::None => Option::None,
                    Option::Some(rest) => Option::Some(pre + pay + rest),
                },
            },
        }
    }
}

/// The token stream of a run of map entries: for each entry the value's
/// probed tag, then the key through the ordinary payload path, then the
/// value's payload. Keys are not constrained to strings here; a non-string
/// key yields a malformed document without an error.
pub open spec fn toks_entries(en: Seq<(ValueModel, ValueModel)>) -> Option<Seq<Token>>
    decreases en, 1int,
{
    if en.len() == 0 {
        Option::Some(Seq::empty())
    } else {
        match probe_result(en[0].1) {
            Option::None => Option::None,
            Option::Some(tagopt) => {
                let pre: Seq<Token> = match tagopt {
                    Option::None => Seq::empty(),
                    Option::Some(t) => seq![tag_tok(t)],
                };
                match toks_value(en[0].0, true) {
                    Option::None => Option::None,
                    Option::Some(kt) => match toks_value(en[0].1, true) {
                        Option::None => Option::None,
                        Option::Some(vt) => match toks_entries(
                            en.subrange(1, en.len() as int),
                        ) {
                            Option::None => Option::None,
                            Option::Some(rest) => Option::Some(pre + kt + vt + rest),
                        },
                    },
                }
            },
        }
    }
}

/// A struct field's value, with one layer of a present optional peeled off:
/// the field is then laid out exactly as if it held the wrapped value.
pub open spec fn unwrap_field(v: ValueModel) -> ValueModel {
    match v {
        ValueModel::OptPresent(b) => *b,
        _ => v,
    }
}

/// The token stream one struct field contributes: nothing at all when the
/// probe reports the field omitted, otherwise the probed tag, the field
/// name, and the payload of the (possibly unwrapped) value.
pub open spec fn field_step(name: Seq<char>, v: ValueModel) -> Option<Seq<Token>>
    decreases v, 2int,
{
    match probe_result(v) {
        Option::None => Option::None,
        Option::Some(Option::None) => Option::Some(Seq::empty()),
        Option::Some(Option::Some(t)) => match toks_value(unwrap_field(v), true) {
            Option::None => Option::None,
            Option::Some(pay) => Option::Some(seq![tag_tok(t)] + str_toks(name) + pay),
        },
    }
}

/// The token stream of a run of struct fields.
pub open spec fn toks_fields(fs: Seq<(Seq<char>, ValueModel)>) -> Option<Seq<Token>>
    decreases fs, 3int,
{
    if fs.len() == 0 {
        Option::Some(Seq::empty())
    } else {
        match field_step(fs[0].0, fs[0].1) {
            Option::None => Option::None,
            Option::Some(ft) => match toks_fields(fs.subrange(1, fs.len() as int)) {
                Option::None => Option::None,
                Option::Some(rest) => Option::Some(ft + rest),
            },
        }
    }
}

/// The token stream of a whole document whose root is `v`.
pub open spec fn doc_toks(v: ValueModel) -> Option<Seq<Token>> {
    toks_value(v, false)
}

/// The NBT data serializer: one per encode, bound to one sink and one
/// variant.
pub struct Serializer {
    /// The output sink; writes only append.
    pub writer: Vec<u8>,
    /// Whether the document root header is still owed: it is written on the
    /// very first compound or struct the encoder touches.
    pub is_initial: bool,
    /// The declared length of the sequence currently awaiting its first
    /// element, used by the `serialize_seq`/`serialize_element` protocol.
    pub len: usize,
    /// The wire layout, fixed for the whole encode.
    pub variant: Variant,
}

impl Serializer {
    /// Creates a new and empty serializer around the given sink.
    pub fn new(w: Vec<u8>, variant: Variant) -> (s: Serializer)
        ensures
            s.writer == w,
            s.is_initial == true,
            s.len == 0,
            s.variant == variant,
    {
        Serializer { writer: w, is_initial: true, len: 0, variant }
    }

    /// Consumes the serializer and returns the inner sink.
    pub fn into_inner(self) -> (w: Vec<u8>)
        ensures
            w == self.writer,
    {
        self.writer
    }

    /// Appends one raw byte.
    fn write_tag(&mut self, t: u8)
        ensures
            final(self).writer@ == old(self).writer@ + seq![t],
            final(self).is_initial == old(self).is_initial,
            final(self).len == old(self).len,
            final(self).variant == old(self).variant,
    {
        self.writer.push(t);
    }

    /// Writes a list or byte-array count per the variant rule table.
    fn write_count(&mut self, n: usize)
        ensures
            final(self).writer@ == old(self).writer@ + render_token(
                Token::Count(n as nat),
                old(self).variant,
            ),
            final(self).is_initial == old(self).is_initial,
            final(self).len == old(self).len,
            final(self).variant == old(self).variant,
    {
        match self.variant {
            Variant::BigEndian => write_u32_be(&mut self.writer, low32_of_len(n)),
            Variant::LittleEndian => write_u32_le(&mut self.writer, low32_of_len(n)),
            Variant::NetworkEndian => write_i32_varint(
                &mut self.writer,
                i32_from_bits(low32_of_len(n)),
            ),
        }
    }

    /// Writes a string length per the variant rule table.
    fn write_strlen(&mut self, n: usize)
        ensures
            final(self).writer@ == old(self).writer@ + render_token(
                Token::StrLen(n as nat),
                old(self).variant,
            ),
            final(self).is_initial == old(self).is_initial,
            final(self).len == old(self).len,
            final(self).variant == old(self).variant,
    {
        match self.variant {
            Variant::BigEndian => write_u16_be(&mut self.writer, low16_of_len(n)),
            Variant::LittleEndian => write_u16_le(&mut self.writer, low16_of_len(n)),
            Variant::NetworkEndian => write_u32_varint(&mut self.writer, low32_of_len(n)),
        }
    }

    /// Writes a boolean as a single byte, `1` for true and `0` for false.
    pub fn serialize_bool(&mut self, v: bool) -> (r: Result<(), NbtError>)
        ensures
            r is Ok,
            final(self).writer@ == old(self).writer@ + seq![if v { 1u8 } else { 0u8 }],
            final(self).is_initial == old(self).is_initial,
            final(self).len == old(self).len,
            final(self).variant == old(self).variant,
    {
        self.write_tag(if v { 1u8 } else { 0u8 });
        Result::Ok(())
    }

    /// Writes an 8-bit integer as its single byte.
    pub fn serialize_i8(&mut self, v: i8) -> (r: Result<(), NbtError>)
        ensures
            r is Ok,
            final(self).writer@ == old(self).writer@ + seq![u8_bits_of_i8(v)],
            final(self).is_initial == old(self).is_initial,
            final(self).len == old(self).len,
            final(self).variant == old(self).variant,
    {
        self.write_tag(u8_from_i8(v));
        Result::Ok(())
    }

    /// Writes a 16-bit integer: two bytes, ordered by the variant.
    pub fn serialize_i16(&mut self, v: i16) -> (r: Result<(), NbtError>)
        ensures
            r is Ok,
            final(self).writer@ == old(self).writer@ + render_token(
                Token::I16(v),
                old(self).variant,
            ),
            final(self).is_initial == old(self).is_initial,
            final(self).len == old(self).len,
            final(self).variant == old(self).variant,
    {
        match self.variant {
            Variant::BigEndian => write_i16_be(&mut self.writer, v),
            Variant::LittleEndian => write_i16_le(&mut self.writer, v),
            Variant::NetworkEndian => write_i16_le(&mut self.writer, v),
        }
        Result::Ok(())
    }

    /// Writes a 32-bit integer: four fixed-width bytes, or its
    /// variable-length signed form under the network variant.
    pub fn serialize_i32(&mut self, v: i32) -> (r: Result<(), NbtError>)
        ensures
            r is Ok,
            final(self).writer@ == old(self).writer@ + render_token(
                Token::I32(v),
                old(self).variant,
            ),
            final(self).is_initial == old(self).is_initial,
            final(self).len == old(self).len,
            final(self).variant == old(self).variant,
    {
        match self.variant {
            Variant::BigEndian => crate::bytes::write_i32_be(&mut self.writer, v),
            Variant::LittleEndian => crate::bytes::write_i32_le(&mut self.writer, v),
            Variant::NetworkEndian => write_i32_varint(&mut self.writer, v),
        }
        Result::Ok(())
    }

    /// Writes a 64-bit integer: eight fixed-width bytes, or its
    /// variable-length signed form under the network variant.
    pub fn serialize_i64(&mut self, v: i64) -> (r: Result<(), NbtError>)
        ensures
            r is Ok,
            final(self).writer@ == old(self).writer@ + render_token(
                Token::I64(v),
                old(self).variant,
            ),
            final(self).is_initial == old(self).is_initial,
            final(self).len == old(self).len,
            final(self).variant == old(self).variant,
    {
        match self.variant {
            Variant::BigEndian => write_i64_be(&mut self.writer, v),
            Variant::LittleEndian => write_i64_le(&mut self.writer, v),
            Variant::NetworkEndian => write_i64_varint(&mut self.writer, v),
        }
        Result::Ok(())
    }

    /// Writes a 32-bit float, given by its bit pattern: four bytes, ordered
    /// by the variant, never variable-length.
    pub fn serialize_f32_bits(&mut self, bits: u32) -> (r: Result<(), NbtError>)
        ensures
            r is Ok,
            final(self).writer@ == old(self).writer@ + render_token(
                Token::F32(bits),
                old(self).variant,
            ),
            final(self).is_initial == old(self).is_initial,
            final(self).len == old(self).len,
            final(self).variant == old(self).variant,
    {
        match self.variant {
            Variant::BigEndian => write_u32_be(&mut self.writer, bits),
            Variant::LittleEndian => write_u32_le(&mut self.writer, bits),
            Variant::NetworkEndian => write_u32_le(&mut self.writer, bits),
        }
        Result::Ok(())
    }

    /// Writes a 64-bit float, given by its bit pattern: eight bytes, ordered
    /// by the variant, never variable-length.
    pub fn serialize_f64_bits(&mut self, bits: u64) -> (r: Result<(), NbtError>)
        ensures
            r is Ok,
            final(self).writer@ == old(self).writer@ + render_token(
                Token::F64(bits),
                old(self).variant,
            ),
            final(self).is_initial == old(self).is_initial,
            final(self).len == old(self).len,
            final(self).variant == old(self).variant,
    {
        match self.variant {
            Variant::BigEndian => write_u64_be(&mut self.writer, bits),
            Variant::LittleEndian => write_u64_le(&mut self.writer, bits),
            Variant::NetworkEndian => write_u64_le(&mut self.writer, bits),
        }
        Result::Ok(())
    }

    /// Writes a string: its UTF-8 byte length per the variant rule table,
    /// then its UTF-8 bytes. Lengths beyond what the length field holds are
    /// reduced to its width, as the wire demands.
    pub fn serialize_str(&mut self, v: &str) -> (r: Result<(), NbtError>)
        ensures
            r is Ok,
            final(self).writer@ == old(self).writer@ + render(
                str_toks(v@),
                old(self).variant,
            ),
            final(self).is_initial == old(self).is_initial,
            final(self).len == old(self).len,
            final(self).variant == old(self).variant,
    {
        let bs = v.as_bytes();
        let n = bs.len();
        self.write_strlen(n);
        push_bytes(&mut self.writer, bs);
        proof {
            assert(v.spec_bytes() == encode_utf8(v@));
            lemma_render_two(
                Token::StrLen(encode_utf8(v@).len()),
                Token::Fixed(encode_utf8(v@)),
                self.variant,
            );
            assert(old(self).writer@ + (render_token(
                Token::StrLen(encode_utf8(v@).len()),
                self.variant,
            ) + render_token(Token::Fixed(encode_utf8(v@)), self.variant)) =~= (old(
                self,
            ).writer@ + render_token(Token::StrLen(encode_utf8(v@).len()), self.variant))
                + render_token(Token::Fixed(encode_utf8(v@)), self.variant));
        }
        Result::Ok(())
    }

    /// Writes a byte blob: its count per the variant rule table, then its
    /// bytes unchanged.
    pub fn serialize_bytes(&mut self, v: &[u8]) -> (r: Result<(), NbtError>)
        ensures
            r is Ok,
            final(self).writer@ == old(self).writer@ + render(
                seq![Token::Count(v@.len()), Token::Fixed(v@)],
                old(self).variant,
            ),
            final(self).is_initial == old(self).is_initial,
            final(self).len == old(self).len,
            final(self).variant == old(self).variant,
    {
        self.write_count(v.len());
        push_bytes(&mut self.writer, v);
        proof {
            lemma_render_two(Token::Count(v@.len()), Token::Fixed(v@), self.variant);
        }
        Result::Ok(())
    }
}

/// Writing one more token's bytes extends the rendering of the tokens
/// written so far.
proof fn lemma_out_step(base: Seq<u8>, done: Seq<Token>, t: Token, var: Variant)
    ensures
        (base + render(done, var)) + render_token(t, var) == base + render(done.push(t), var),
{
    crate::tokens::lemma_render_snoc(done, t, var);
    assert((base + render(done, var)) + render_token(t, var) =~= base + (render(done, var)
        + render_token(t, var)));
}

/// Writing a run of tokens' bytes extends the rendering of the tokens
/// written so far.
proof fn lemma_out_concat(base: Seq<u8>, done: Seq<Token>, pay: Seq<Token>, var: Variant)
    ensures
        (base + render(done, var)) + render(pay, var) == base + render(done + pay, var),
{
    lemma_render_concat(done, pay, var);
    assert((base + render(done, var)) + render(pay, var) =~= base + (render(done, var) + render(
        pay,
        var,
    )));
}

/// One step of the sequence state machine, as the element loop needs it:
/// if the whole run's stream was owed `done0` plus the suffix from `i`,
/// then after element `i` it is owed `done0 + pre + pay` plus the suffix
/// from `i + 1`.
proof fn lemma_elems_step(
    ms: Seq<ValueModel>,
    i: int,
    p0: nat,
    rw0: bool,
    rwc: bool,
    done0: Seq<Token>,
    pre: Seq<Token>,
    pay: Seq<Token>,
)
    requires
        0 <= i < ms.len(),
        toks_value(ms[i], rwc) == Option::Some(pay),
        p0 != 0 ==> match probe_result(ms[i]) {
            Option::None => false,
            Option::Some(Option::None) => pre == seq![Token::Count(p0)],
            Option::Some(Option::Some(t)) => pre == seq![tag_tok(t), Token::Count(p0)],
        },
        p0 == 0 ==> pre == Seq::<Token>::empty(),
        match toks_elems(ms.subrange(i, ms.len() as int), p0, rwc) {
            Option::None => toks_elems(ms, ms.len(), rw0) is None,
            Option::Some(rest) => toks_elems(ms, ms.len(), rw0) == Option::Some(done0 + rest),
        },
        rw_after_elems(ms, rw0) == rw_after_elems(ms.subrange(i, ms.len() as int), rwc),
    ensures
        match toks_elems(ms.subrange(i + 1, ms.len() as int), 0, rw_after(ms[i], rwc)) {
            Option::None => toks_elems(ms, ms.len(), rw0) is None,
            Option::Some(rest) => toks_elems(ms, ms.len(), rw0) == Option::Some(
                ((done0 + pre) + pay) + rest,
            ),
        },
        rw_after_elems(ms, rw0) == rw_after_elems(
            ms.subrange(i + 1, ms.len() as int),
            rw_after(ms[i], rwc),
        ),
{
    let suffix = ms.subrange(i, ms.len() as int);
    assert(suffix.len() == ms.len() - i);
    assert(suffix[0] == ms[i]);
    assert(suffix.subrange(1, suffix.len() as int) =~= ms.subrange(i + 1, ms.len() as int));
    match toks_elems(ms.subrange(i + 1, ms.len() as int), 0, rw_after(ms[i], rwc)) {
        Option::None => {
            assert(toks_elems(suffix, p0, rwc) is None);
        },
        Option::Some(rest) => {
            assert(toks_elems(suffix, p0, rwc) == Option::Some(pre + pay + rest));
            match toks_elems(ms, ms.len(), rw0) {
                Option::Some(full) => {
                    assert(done0 + (pre + pay + rest) =~= ((done0 + pre) + pay) + rest);
                },
                Option::None => {},
            }
        },
    }
}

impl Serializer {
    /// Encodes a run of list elements per the sequence state machine: the
    /// first element of a non-empty run is probed for the element tag, the
    /// `(tag, count)` pair is written, and every element's payload follows
    /// with no per-element tag, name or separator; no terminator closes a
    /// sequence. A zero-length run writes nothing.
    #[verifier::loop_isolation(false)]
    #[verifier::rlimit(100)]
    #[verifier::spinoff_prover]
    fn encode_list(&mut self, es: &Vec<Value>) -> (r: Result<(), NbtError>)
        ensures
            final(self).variant == old(self).variant,
            final(self).len == old(self).len,
            (r is Ok) <==> (toks_elems(models_of(es@), models_of(es@).len(), !old(self).is_initial) is Some),
            r is Ok ==> final(self).writer@ == old(self).writer@ + render(
                toks_elems(models_of(es@), models_of(es@).len(), !old(self).is_initial)->Some_0,
                old(self).variant,
            ),
            r is Ok ==> final(self).is_initial == !rw_after_elems(models_of(es@), !old(self).is_initial),
            r matches Result::Err(e) ==> e matches NbtError::UnsupportedShape(_),
        decreases es, 1int,
    {
        let ghost var0: Variant = self.variant;
        let ghost out0: Seq<u8> = self.writer@;
        let ghost rw0: bool = !self.is_initial;
        let ghost ms: Seq<ValueModel> = models_of(es@);
        proof {
            crate::model::lemma_models_of(es@);
        }
        let n: usize = es.len();
        let mut pending: usize = n;
        let mut i: usize = 0;
        let ghost mut done: Seq<Token> = Seq::empty();
        proof {
            assert(ms.subrange(0, n as int) =~= ms);
            assert(out0 + render(Seq::<Token>::empty(), var0) =~= out0);
            match toks_elems(ms, n as nat, rw0) {
                Option::Some(rest) => {
                    assert(Seq::<Token>::empty() + rest =~= rest);
                },
                Option::None => {},
            }
        }
        while i < n
            invariant
                i <= n,
                n == es@.len(),
                pending == if i == 0 {
                    n
                } else {
                    0usize
                },
                self.variant == var0,
                self.len == old(self).len,
                self.writer@ == out0 + render(done, var0),
                match toks_elems(
                    ms.subrange(i as int, n as int),
                    pending as nat,
                    !self.is_initial,
                ) {
                    Option::None => toks_elems(ms, n as nat, rw0) is None,
                    Option::Some(rest) => toks_elems(ms, n as nat, rw0)
                        == Option::Some(done + rest),
                },
                rw_after_elems(ms, rw0) == rw_after_elems(
                    ms.subrange(i as int, n as int),
                    !self.is_initial,
                ),
            decreases n - i,
        {
            let ghost suffix: Seq<ValueModel> = ms.subrange(i as int, n as int);
            let ghost p0: nat = pending as nat;
            let ghost rwc: bool = !self.is_initial;
            let ghost done0: Seq<Token> = done;
            let ghost head: ValueModel = ms[i as int];
            proof {
                assert(suffix.len() == n - i);
                assert(suffix[0] == head);
                assert(suffix.subrange(1, suffix.len() as int) =~= ms.subrange(
                    i as int + 1,
                    n as int,
                ));
            }
            let e: &Value = &es[i];
            proof {
                assert(e@ == head);
            }
            let ghost mut pre: Seq<Token> = Seq::empty();
            if pending != 0 {
                let prober = FieldTypeSerializer::new();
                let pr = prober.field_type(e);
                match pr {
                    Result::Err(err) => {
                        proof {
                            assert(toks_elems(suffix, p0, rwc) is None);
                        }
                        return Result::Err(err);
                    },
                    Result::Ok(topt) => {
                        match topt {
                            Option::Some(t) => {
                                self.write_tag(t);
                                proof {
                                    lemma_out_step(out0, done, tag_tok(t), var0);
                                    done = done.push(tag_tok(t));
                                    pre = seq![tag_tok(t), Token::Count(p0)];
                                }
                            },
                            Option::None => {
                                proof {
                                    pre = seq![Token::Count(p0)];
                                }
                            },
                        }
                        self.write_count(pending);
                        proof {
                            lemma_out_step(out0, done, Token::Count(p0), var0);
                            done = done.push(Token::Count(p0));
                            assert(done =~= done0 + pre);
                        }
                        pending = 0;
                    },
                }
            } else {
                proof {
                    assert(done =~= done0 + pre);
                }
            }
            match self.serialize_value(e) {
                Result::Err(err) => {
                    proof {
                        assert(toks_value(head, rwc) is None);
                        assert(toks_elems(suffix, p0, rwc) is None);
                    }
                    return Result::Err(err);
                },
                Result::Ok(_) => {},
            }
            proof {
                let pay = toks_value(head, rwc)->Some_0;
                lemma_out_concat(out0, done, pay, var0);
                done = done + pay;
                assert(done =~= ((done0 + pre) + pay));
                assert(!self.is_initial == rw_after(head, rwc));
                lemma_elems_step(ms, i as int, p0, rw0, rwc, done0, pre, pay);
            }
            i = i + 1;
        }
        proof {
            assert(ms.subrange(n as int, n as int) =~= Seq::<ValueModel>::empty());
            match toks_elems(ms, n as nat, rw0) {
                Option::Some(full) => {
                    assert(done + Seq::<Token>::empty() =~= done);
                },
                Option::None => {},
            }
        }
        Result::Ok(())
    }

    /// Encodes a map as a compound: writes the document root header first
    /// if it is still owed (with an empty name), then for every entry the
    /// value's probed tag, the key through the ordinary payload path, and
    /// the value's payload, and closes with one `End` tag.
    #[verifier::loop_isolation(false)]
    #[verifier::rlimit(100)]
    fn encode_compound(&mut self, en: &Vec<(Value, Value)>) -> (r: Result<(), NbtError>)
        ensures
            final(self).variant == old(self).variant,
            final(self).len == old(self).len,
            (r is Ok) <==> (toks_value(ValueModel::Compound(crate::model::entry_models_of(en@)), !old(self).is_initial) is Some),
            r is Ok ==> final(self).writer@ == old(self).writer@ + render(
                toks_value(ValueModel::Compound(crate::model::entry_models_of(en@)), !old(self).is_initial)->Some_0,
                old(self).variant,
            ),
            r is Ok ==> final(self).is_initial == false,
            r matches Result::Err(e) ==> e matches NbtError::UnsupportedShape(_),
        decreases en, 1int,
    {
        let ghost var0: Variant = self.variant;
        let ghost out0: Seq<u8> = self.writer@;
        let ghost rw0: bool = !self.is_initial;
        let ghost ems: Seq<(ValueModel, ValueModel)> = crate::model::entry_models_of(en@);
        proof {
            crate::model::lemma_entry_models_of(en@);
        }
        let ghost hdr: Seq<Token> = if !rw0 {
            header_toks(Seq::<char>::empty())
        } else {
            Seq::<Token>::empty()
        };
        if self.is_initial {
            self.write_tag(TAG_COMPOUND);
            let _ = self.serialize_str("");
            self.is_initial = false;
            proof {
                reveal_strlit("");
                assert(""@ =~= Seq::<char>::empty());
                lemma_render_cons(
                    tag_tok(TAG_COMPOUND),
                    str_toks(Seq::<char>::empty()),
                    var0,
                );
                assert(hdr == seq![tag_tok(TAG_COMPOUND)] + str_toks(Seq::<char>::empty()));
                assert((out0 + seq![TAG_COMPOUND]) + render(
                    str_toks(Seq::<char>::empty()),
                    var0,
                ) =~= out0 + (render_token(tag_tok(TAG_COMPOUND), var0) + render(
                    str_toks(Seq::<char>::empty()),
                    var0,
                )));
                assert(self.writer@ == out0 + render(hdr, var0));
            }
        } else {
            proof {
                assert(out0 + render(Seq::<Token>::empty(), var0) =~= out0);
            }
        }
        let ghost base: Seq<u8> = out0 + render(hdr, var0);
        let n: usize = en.len();
        let mut i: usize = 0;
        let ghost mut done: Seq<Token> = Seq::empty();
        proof {
            assert(ems.subrange(0, n as int) =~= ems);
            assert(base + render(Seq::<Token>::empty(), var0) =~= base);
            match toks_entries(ems) {
                Option::Some(rest) => {
                    assert(Seq::<Token>::empty() + rest =~= rest);
                },
                Option::None => {},
            }
        }
        while i < n
            invariant
                i <= n,
                n == en@.len(),
                self.is_initial == false,
                self.variant == var0,
                self.len == old(self).len,
                self.writer@ == base + render(done, var0),
                match toks_entries(ems.subrange(i as int, n as int)) {
                    Option::None => toks_entries(ems) is None,
                    Option::Some(rest) => toks_entries(ems) == Option::Some(done + rest),
                },
            decreases n - i,
        {
            let ghost suffix: Seq<(ValueModel, ValueModel)> = ems.subrange(
                i as int,
                n as int,
            );
            let ghost done0: Seq<Token> = done;
            let ghost km: ValueModel = ems[i as int].0;
            let ghost vm: ValueModel = ems[i as int].1;
            proof {
                assert(suffix[0] == ems[i as int]);
                assert(suffix.subrange(1, suffix.len() as int) =~= ems.subrange(
                    i as int + 1,
                    n as int,
                ));
                assert(en@[i as int].0@ == km);
                assert(en@[i as int].1@ == vm);
            }
            let ghost mut pre: Seq<Token> = Seq::empty();
            let prober = FieldTypeSerializer::new();
            let pr = prober.field_type(&en[i].1);
            match pr {
                Result::Err(err) => {
                    proof {
                        assert(toks_entries(suffix) is None);
                    }
                    return Result::Err(err);
                },
                Result::Ok(topt) => {
                    match topt {
                        Option::Some(t) => {
                            self.write_tag(t);
                            proof {
                                lemma_out_step(base, done, tag_tok(t), var0);
                                done = done.push(tag_tok(t));
                                pre = seq![tag_tok(t)];
                            }
                        },
                        Option::None => {},
                    }
                },
            }
            match self.serialize_value(&en[i].0) {
                Result::Err(err) => {
                    proof {
                        assert(toks_value(km, true) is None);
                        assert(toks_entries(suffix) is None);
                    }
                    return Result::Err(err);
                },
                Result::Ok(_) => {},
            }
            proof {
                lemma_rw_after_true(km);
                let kt = toks_value(km, true)->Some_0;
                lemma_out_concat(base, done, kt, var0);
                done = done + kt;
            }
            match self.serialize_value(&en[i].1) {
                Result::Err(err) => {
                    proof {
                        assert(toks_value(vm, true) is None);
                        assert(toks_entries(suffix) is None);
                    }
                    return Result::Err(err);
                },
                Result::Ok(_) => {},
            }
            proof {
                lemma_rw_after_true(vm);
                let kt = toks_value(km, true)->Some_0;
                let vt = toks_value(vm, true)->Some_0;
                lemma_out_concat(base, done, vt, var0);
                done = done + vt;
                assert(done =~= done0 + (pre + kt + vt));
                match toks_entries(ems.subrange(i as int + 1, n as int)) {
                    Option::None => {
                        assert(toks_entries(suffix) is None);
                    },
                    Option::Some(rest2) => {
                        assert(toks_entries(suffix) == Option::Some(
                            pre + kt + vt + rest2,
                        ));
                        match toks_entries(ems) {
                            Option::Some(full) => {
                                assert(done0 + (pre + kt + vt + rest2) =~= done + rest2);
                            },
                            Option::None => {},
                        }
                    },
                }
            }
            i = i + 1;
        }
        self.write_tag(TAG_END);
        proof {
            assert(ems.subrange(n as int, n as int) =~= Seq::<(ValueModel, ValueModel)>::empty());
            let body = toks_entries(ems)->Some_0;
            assert(body == done + Seq::<Token>::empty());
            assert(done + Seq::<Token>::empty() =~= done);
            lemma_out_step(base, done, tag_tok(TAG_END), var0);
            lemma_render_concat(hdr, done.push(tag_tok(TAG_END)), var0);
            assert(hdr + done.push(tag_tok(TAG_END)) =~= hdr + body + seq![
                tag_tok(TAG_END),
            ]);
            assert(out0 + (render(hdr, var0) + render(done.push(tag_tok(TAG_END)), var0))
                =~= base + render(done.push(tag_tok(TAG_END)), var0));
            assert(toks_value(ValueModel::Compound(ems), rw0) == Option::Some(hdr + body + seq![
                tag_tok(TAG_END),
            ]));
        }
        Result::Ok(())
    }

    /// Encodes a struct as a compound: writes the document root header
    /// first if it is still owed (named after the struct itself), then
    /// every field per the probe's tag and omit decision, and closes with
    /// one `End` tag. A field holding an absent optional contributes no
    /// bytes; one holding a present optional is laid out as if it held the
    /// wrapped value.
    #[verifier::loop_isolation(false)]
    #[verifier::rlimit(100)]
    fn encode_struct(&mut self, name: &String, fs: &Vec<(String, Value)>) -> (r: Result<(), NbtError>)
        ensures
            final(self).variant == old(self).variant,
            final(self).len == old(self).len,
            (r is Ok) <==> (toks_value(ValueModel::Struct(name@, crate::model::field_models_of(fs@)), !old(self).is_initial) is Some),
            r is Ok ==> final(self).writer@ == old(self).writer@ + render(
                toks_value(ValueModel::Struct(name@, crate::model::field_models_of(fs@)), !old(self).is_initial)->Some_0,
                old(self).variant,
            ),
            r is Ok ==> final(self).is_initial == false,
            r matches Result::Err(e) ==> e matches NbtError::UnsupportedShape(_),
        decreases fs, 1int,
    {
        let ghost var0: Variant = self.variant;
        let ghost out0: Seq<u8> = self.writer@;
        let ghost rw0: bool = !self.is_initial;
        let ghost fms: Seq<(Seq<char>, ValueModel)> = crate::model::field_models_of(fs@);
        proof {
            crate::model::lemma_field_models_of(fs@);
        }
        let ghost hdr: Seq<Token> = if !rw0 {
            header_toks(name@)
        } else {
            Seq::<Token>::empty()
        };
        if self.is_initial {
            self.write_tag(TAG_COMPOUND);
            let _ = self.serialize_str(name.as_str());
            self.is_initial = false;
            proof {
                lemma_render_cons(tag_tok(TAG_COMPOUND), str_toks(name@), var0);
                assert(hdr == seq![tag_tok(TAG_COMPOUND)] + str_toks(name@));
                assert((out0 + seq![TAG_COMPOUND]) + render(str_toks(name@), var0) =~= out0
                    + (render_token(tag_tok(TAG_COMPOUND), var0) + render(
                    str_toks(name@),
                    var0,
                )));
                assert(self.writer@ == out0 + render(hdr, var0));
            }
        } else {
            proof {
                assert(out0 + render(Seq::<Token>::empty(), var0) =~= out0);
            }
        }
        let ghost base: Seq<u8> = out0 + render(hdr, var0);
        let n: usize = fs.len();
        let mut i: usize = 0;
        let ghost mut done: Seq<Token> = Seq::empty();
        proof {
            assert(fms.subrange(0, n as int) =~= fms);
            assert(base + render(Seq::<Token>::empty(), var0) =~= base);
            match toks_fields(fms) {
                Option::Some(rest) => {
                    assert(Seq::<Token>::empty() + rest =~= rest);
                },
                Option::None => {},
            }
        }
        while i < n
            invariant
                i <= n,
                n == fs@.len(),
                self.is_initial == false,
                self.variant == var0,
                self.len == old(self).len,
                self.writer@ == base + render(done, var0),
                match toks_fields(fms.subrange(i as int, n as int)) {
                    Option::None => toks_fields(fms) is None,
                    Option::Some(rest) => toks_fields(fms) == Option::Some(done + rest),
                },
            decreases n - i,
        {
            let ghost suffix: Seq<(Seq<char>, ValueModel)> = fms.subrange(
                i as int,
                n as int,
            );
            let ghost done0: Seq<Token> = done;
            let ghost fname: Seq<char> = fms[i as int].0;
            let ghost fvm: ValueModel = fms[i as int].1;
            proof {
                assert(suffix[0] == fms[i as int]);
                assert(suffix.subrange(1, suffix.len() as int) =~= fms.subrange(
                    i as int + 1,
                    n as int,
                ));
                assert(fs@[i as int].0@ == fname);
                assert(fs@[i as int].1@ == fvm);
            }
            let prober = FieldTypeSerializer::new();
            let pr = prober.field_type(&fs[i].1);
            match pr {
                Result::Err(err) => {
                    proof {
                        assert(field_step(fname, fvm) is None);
                        assert(toks_fields(suffix) is None);
                    }
                    return Result::Err(err);
                },
                Result::Ok(Option::None) => {
                    proof {
                        assert(field_step(fname, fvm) == Option::Some(
                            Seq::<Token>::empty(),
                        ));
                        match toks_fields(fms.subrange(i as int + 1, n as int)) {
                            Option::None => {
                                assert(toks_fields(suffix) is None);
                            },
                            Option::Some(rest2) => {
                                assert(toks_fields(suffix) == Option::Some(
                                    Seq::<Token>::empty() + rest2,
                                ));
                                assert(Seq::<Token>::empty() + rest2 =~= rest2);
                            },
                        }
                    }
                },
                Result::Ok(Option::Some(t)) => {
                    self.write_tag(t);
                    proof {
                        lemma_out_step(base, done, tag_tok(t), var0);
                        done = done.push(tag_tok(t));
                    }
                    let _ = self.serialize_str(fs[i].0.as_str());
                    proof {
                        lemma_out_concat(base, done, str_toks(fname), var0);
                        done = done + str_toks(fname);
                    }
                    let fv: &Value = &fs[i].1;
                    let pv: &Value = match fv {
                        Value::Optional(o) => match o {
                            Option::Some(b) => &**b,
                            Option::None => fv,
                        },
                        _ => fv,
                    };
                    proof {
                        assert(pv@ == unwrap_field(fvm));
                    }
                    match self.serialize_value(pv) {
                        Result::Err(err) => {
                            proof {
                                assert(toks_value(unwrap_field(fvm), true) is None);
                                assert(field_step(fname, fvm) is None);
                                assert(toks_fields(suffix) is None);
                            }
                            return Result::Err(err);
                        },
                        Result::Ok(_) => {},
                    }
                    proof {
                        lemma_rw_after_true(unwrap_field(fvm));
                        let pay = toks_value(unwrap_field(fvm), true)->Some_0;
                        lemma_out_concat(base, done, pay, var0);
                        done = done + pay;
                        let ft = field_step(fname, fvm)->Some_0;
                        assert(ft == seq![tag_tok(t)] + str_toks(fname) + pay);
                        assert(done =~= done0 + ft);
                        match toks_fields(fms.subrange(i as int + 1, n as int)) {
                            Option::None => {
                                assert(toks_fields(suffix) is None);
                            },
                            Option::Some(rest2) => {
                                assert(toks_fields(suffix) == Option::Some(ft + rest2));
                                match toks_fields(fms) {
                                    Option::Some(full) => {
                                        assert(done0 + (ft + rest2) =~= done + rest2);
                                    },
                                    Option::None => {},
                                }
                            },
                        }
                    }
                },
            }
            i = i + 1;
        }
        self.write_tag(TAG_END);
        proof {
            assert(fms.subrange(n as int, n as int) =~= Seq::<(Seq<char>, ValueModel)>::empty());
            let body = toks_fields(fms)->Some_0;
            assert(body == done + Seq::<Token>::empty());
            assert(done + Seq::<Token>::empty() =~= done);
            lemma_out_step(base, done, tag_tok(TAG_END), var0);
            lemma_render_concat(hdr, done.push(tag_tok(TAG_END)), var0);
            assert(hdr + done.push(tag_tok(TAG_END)) =~= hdr + body + seq![
                tag_tok(TAG_END),
            ]);
            assert(out0 + (render(hdr, var0) + render(done.push(tag_tok(TAG_END)), var0))
                =~= base + render(done.push(tag_tok(TAG_END)), var0));
            assert(toks_value(ValueModel::Struct(name@, fms), rw0) == Option::Some(hdr + body + seq![
                tag_tok(TAG_END),
            ]));
        }
        Result::Ok(())
    }

    /// Encodes the payload of `v` through the generic shape dispatch, per
    /// the active variant: exactly the values with a token stream succeed,
    /// and on success that stream's rendering is what was appended to the
    /// sink. On failure, bytes already written for earlier parts of the
    /// same traversal stay in the sink; a shape rejected at sight
    /// contributes no bytes at all.
    pub fn serialize_value(&mut self, v: &Value) -> (r: Result<(), NbtError>)
        ensures
            final(self).variant == old(self).variant,
            final(self).len == old(self).len,
            (r is Ok) <==> (toks_value(v@, !old(self).is_initial) is Some),
            r is Ok ==> final(self).writer@ == old(self).writer@ + render(
                toks_value(v@, !old(self).is_initial)->Some_0,
                old(self).variant,
            ),
            r is Ok ==> final(self).is_initial == !rw_after(v@, !old(self).is_initial),
            r matches Result::Err(e) ==> e matches NbtError::UnsupportedShape(_),
            (r is Err && immediate_reject(v@)) ==> (final(self).writer@ == old(self).writer@
                && final(self).is_initial == old(self).is_initial && r == Result::<
                (),
                NbtError,
            >::Err(NbtError::UnsupportedShape(reject_kind(v@)))),
        decreases v, 0int,
    {
        match v {
            Value::Bool(b) => {
                let r = self.serialize_bool(*b);
                proof {
                    lemma_render_one(
                        Token::Fixed(seq![if *b { 1u8 } else { 0u8 }]),
                        old(self).variant,
                    );
                }
                r
            },
            Value::Byte(x) => {
                let r = self.serialize_i8(*x);
                proof {
                    lemma_render_one(Token::Fixed(seq![u8_bits_of_i8(*x)]), old(self).variant);
                }
                r
            },
            Value::Short(x) => {
                let r = self.serialize_i16(*x);
                proof {
                    lemma_render_one(Token::I16(*x), old(self).variant);
                }
                r
            },
            Value::Int(x) => {
                let r = self.serialize_i32(*x);
                proof {
                    lemma_render_one(Token::I32(*x), old(self).variant);
                }
                r
            },
            Value::Long(x) => {
                let r = self.serialize_i64(*x);
                proof {
                    lemma_render_one(Token::I64(*x), old(self).variant);
                }
                r
            },
            Value::Float(bits) => {
                let r = self.serialize_f32_bits(*bits);
                proof {
                    lemma_render_one(Token::F32(*bits), old(self).variant);
                }
                r
            },
            Value::Double(bits) => {
                let r = self.serialize_f64_bits(*bits);
                proof {
                    lemma_render_one(Token::F64(*bits), old(self).variant);
                }
                r
            },
            Value::Str(s) => self.serialize_str(s.as_str()),
            Value::ByteArray(bs) => self.serialize_bytes(bs.as_slice()),
            Value::List(es) => {
                let r = self.encode_list(es);
                proof {
                    assert(v@ == ValueModel::List(models_of(es@)));
                }
                r
            },
            Value::Compound(en) => {
                let r = self.encode_compound(en);
                proof {
                    assert(v@ == ValueModel::Compound(crate::model::entry_models_of(en@)));
                }
                r
            },
            Value::Struct(name, fs) => {
                let r = self.encode_struct(name, fs);
                proof {
                    assert(v@ == ValueModel::Struct(name@, crate::model::field_models_of(fs@)));
                }
                r
            },
            Value::Optional(_) => Result::Err(NbtError::UnsupportedShape(ShapeKind::BareOptional)),
            Value::UShort(_) => Result::Err(NbtError::UnsupportedShape(ShapeKind::UnsignedInt)),
            Value::UInt(_) => Result::Err(NbtError::UnsupportedShape(ShapeKind::UnsignedInt)),
            Value::ULong(_) => Result::Err(NbtError::UnsupportedShape(ShapeKind::UnsignedInt)),
            Value::Char(_) => Result::Err(NbtError::UnsupportedShape(ShapeKind::Char)),
            Value::Unit => Result::Err(NbtError::UnsupportedShape(ShapeKind::Unit)),
        }
    }
}


/// The token stream one `serialize_element` call contributes, given the
/// pending declared length: the probed element tag and the count while a
/// length is pending, then the element's payload.
pub open spec fn elem_step_toks(e: ValueModel, pending: nat, rw: bool) -> Option<Seq<Token>> {
    let prefix: Option<Seq<Token>> = if pending != 0 {
        match probe_result(e) {
            Option::None => Option::None,
            Option::Some(Option::None) => Option::Some(seq![Token::Count(pending)]),
            Option::Some(Option::Some(t)) => Option::Some(seq![tag_tok(t), Token::Count(pending)]),
        }
    } else {
        Option::Some(Seq::empty())
    };
    match prefix {
        Option::None => Option::None,
        Option::Some(pre) => match toks_value(e, rw) {
            Option::None => Option::None,
            Option::Some(pay) => Option::Some(pre + pay),
        },
    }
}

/// The token stream one `serialize_entry` call contributes: the value's
/// probed tag, the key's payload, then the value's payload.
pub open spec fn entry_step_toks(k: ValueModel, v: ValueModel, rw: bool) -> Option<Seq<Token>> {
    match probe_result(v) {
        Option::None => Option::None,
        Option::Some(tagopt) => {
            let pre: Seq<Token> = match tagopt {
                Option::None => Seq::empty(),
                Option::Some(t) => seq![tag_tok(t)],
            };
            match toks_value(k, rw) {
                Option::None => Option::None,
                Option::Some(kt) => match toks_value(v, rw_after(k, rw)) {
                    Option::None => Option::None,
                    Option::Some(vt) => Option::Some(pre + kt + vt),
                },
            }
        },
    }
}

/// As `field_step`, before the document root header question is settled:
/// the tokens one `serialize_field` call contributes.
pub open spec fn field_step_rw(name: Seq<char>, v: ValueModel, rw: bool) -> Option<Seq<Token>> {
    match probe_result(v) {
        Option::None => Option::None,
        Option::Some(Option::None) => Option::Some(Seq::empty()),
        Option::Some(Option::Some(t)) => match toks_value(unwrap_field(v), rw) {
            Option::None => Option::None,
            Option::Some(pay) => Option::Some(seq![tag_tok(t)] + str_toks(name) + pay),
        },
    }
}

impl Serializer {
    /// Begins a sequence: stores the declared length, which the first
    /// element consumes. A sequence whose length is not known in advance
    /// is rejected.
    pub fn serialize_seq(&mut self, len: Option<usize>) -> (r: Result<(), NbtError>)
        ensures
            final(self).writer@ == old(self).writer@,
            final(self).is_initial == old(self).is_initial,
            final(self).variant == old(self).variant,
            (r is Ok) <==> (len is Some),
            len matches Option::Some(l) ==> final(self).len == l,
            len is None ==> r == Result::<(), NbtError>::Err(
                NbtError::UnsupportedShape(ShapeKind::UnknownLength),
            ) && final(self).len == old(self).len,
    {
        match len {
            Option::Some(l) => {
                self.len = l;
                Result::Ok(())
            },
            Option::None => Result::Err(NbtError::UnsupportedShape(ShapeKind::UnknownLength)),
        }
    }

    /// Begins a tuple: identical to a sequence whose length is known.
    pub fn serialize_tuple(&mut self, len: usize) -> (r: Result<(), NbtError>)
        ensures
            r is Ok,
            final(self).writer@ == old(self).writer@,
            final(self).is_initial == old(self).is_initial,
            final(self).variant == old(self).variant,
            final(self).len == len,
    {
        self.len = len;
        Result::Ok(())
    }

    /// Encodes one sequence or tuple element. While the declared length is
    /// pending this first probes the element, writes the `(tag, count)`
    /// pair, and clears the pending length; the element's payload follows
    /// with no per-element tag, name or separator.
    #[verifier::loop_isolation(false)]
    pub fn serialize_element(&mut self, element: &Value) -> (r: Result<(), NbtError>)
        ensures
            final(self).variant == old(self).variant,
            (r is Ok) <==> elem_step_toks(element@, old(self).len as nat, !old(self).is_initial)
                is Some,
            r is Ok ==> final(self).writer@ == old(self).writer@ + render(
                elem_step_toks(element@, old(self).len as nat, !old(self).is_initial)->Some_0,
                old(self).variant,
            ),
            r is Ok ==> final(self).len == 0,
            r is Ok ==> final(self).is_initial == !rw_after(element@, !old(self).is_initial),
            r matches Result::Err(e) ==> e matches NbtError::UnsupportedShape(_),
    {
        let ghost var0: Variant = self.variant;
        let ghost out0: Seq<u8> = self.writer@;
        let ghost rw0: bool = !self.is_initial;
        let ghost p0: nat = self.len as nat;
        let ghost mut pre: Seq<Token> = Seq::empty();
        if self.len != 0 {
            let prober = FieldTypeSerializer::new();
            match prober.field_type(element) {
                Result::Err(err) => {
                    return Result::Err(err);
                },
                Result::Ok(topt) => {
                    match topt {
                        Option::Some(t) => {
                            self.write_tag(t);
                            proof {
                                pre = seq![tag_tok(t), Token::Count(p0)];
                            }
                        },
                        Option::None => {
                            proof {
                                pre = seq![Token::Count(p0)];
                            }
                        },
                    }
                    let pending = self.len;
                    self.write_count(pending);
                    self.len = 0;
                    proof {
                        if pre.len() == 2 {
                            lemma_render_two(pre[0], Token::Count(p0), var0);
                        } else {
                            lemma_render_one(Token::Count(p0), var0);
                        }
                        assert(self.writer@ =~= out0 + render(pre, var0));
                    }
                },
            }
        } else {
            proof {
                assert(out0 + render(pre, var0) =~= out0);
            }
        }
        let ghost mid: Seq<u8> = self.writer@;
        match self.serialize_value(element) {
            Result::Err(err) => Result::Err(err),
            Result::Ok(_) => {
                proof {
                    let pay = toks_value(element@, rw0)->Some_0;
                    lemma_render_concat(pre, pay, var0);
                    assert((out0 + render(pre, var0)) + render(pay, var0) =~= out0 + render(
                        pre + pay,
                        var0,
                    ));
                }
                Result::Ok(())
            },
        }
    }

    /// Opens a map; if the document root header is still owed, writes it
    /// first, with an empty name. Entries follow through
    /// `serialize_entry`; `end` closes the compound.
    pub fn serialize_map(&mut self) -> (r: Result<(), NbtError>)
        ensures
            r is Ok,
            final(self).writer@ == old(self).writer@ + (if old(self).is_initial {
                render(header_toks(Seq::<char>::empty()), old(self).variant)
            } else {
                Seq::<u8>::empty()
            }),
            final(self).is_initial == false,
            final(self).len == old(self).len,
            final(self).variant == old(self).variant,
    {
        let ghost out0: Seq<u8> = self.writer@;
        let ghost var0: Variant = self.variant;
        if self.is_initial {
            self.write_tag(TAG_COMPOUND);
            let _ = self.serialize_str("");
            self.is_initial = false;
            proof {
                reveal_strlit("");
                assert(""@ =~= Seq::<char>::empty());
                lemma_render_cons(tag_tok(TAG_COMPOUND), str_toks(Seq::<char>::empty()), var0);
                assert((out0 + seq![TAG_COMPOUND]) + render(
                    str_toks(Seq::<char>::empty()),
                    var0,
                ) =~= out0 + (render_token(tag_tok(TAG_COMPOUND), var0) + render(
                    str_toks(Seq::<char>::empty()),
                    var0,
                )));
            }
        } else {
            proof {
                assert(out0 + Seq::<u8>::empty() =~= out0);
            }
        }
        Result::Ok(())
    }

    /// Opens a struct; if the document root header is still owed, writes
    /// it first, named after the struct itself. Fields follow through
    /// `serialize_field`; `end` closes the compound.
    pub fn serialize_struct(&mut self, name: &str, _len: usize) -> (r: Result<(), NbtError>)
        ensures
            r is Ok,
            final(self).writer@ == old(self).writer@ + (if old(self).is_initial {
                render(header_toks(name@), old(self).variant)
            } else {
                Seq::<u8>::empty()
            }),
            final(self).is_initial == false,
            final(self).len == old(self).len,
            final(self).variant == old(self).variant,
    {
        let ghost out0: Seq<u8> = self.writer@;
        let ghost var0: Variant = self.variant;
        if self.is_initial {
            self.write_tag(TAG_COMPOUND);
            let _ = self.serialize_str(name);
            self.is_initial = false;
            proof {
                lemma_render_cons(tag_tok(TAG_COMPOUND), str_toks(name@), var0);
                assert((out0 + seq![TAG_COMPOUND]) + render(str_toks(name@), var0) =~= out0 + (
                render_token(tag_tok(TAG_COMPOUND), var0) + render(str_toks(name@), var0)));
            }
        } else {
            proof {
                assert(out0 + Seq::<u8>::empty() =~= out0);
            }
        }
        Result::Ok(())
    }

    /// Encodes one map entry: the value's probed tag, then the key through
    /// the ordinary payload path, then the value's payload. A key that is
    /// not a string yields a malformed document without an error being
    /// raised here.
    pub fn serialize_entry(&mut self, key: &Value, value: &Value) -> (r: Result<(), NbtError>)
        ensures
            final(self).variant == old(self).variant,
            final(self).len == old(self).len,
            (r is Ok) <==> entry_step_toks(key@, value@, !old(self).is_initial) is Some,
            r is Ok ==> final(self).writer@ == old(self).writer@ + render(
                entry_step_toks(key@, value@, !old(self).is_initial)->Some_0,
                old(self).variant,
            ),
            r matches Result::Err(e) ==> e matches NbtError::UnsupportedShape(_),
    {
        let ghost var0: Variant = self.variant;
        let ghost out0: Seq<u8> = self.writer@;
        let ghost rw0: bool = !self.is_initial;
        let ghost mut pre: Seq<Token> = Seq::empty();
        let prober = FieldTypeSerializer::new();
        match prober.field_type(value) {
            Result::Err(err) => {
                return Result::Err(err);
            },
            Result::Ok(topt) => {
                match topt {
                    Option::Some(t) => {
                        self.write_tag(t);
                        proof {
                            pre = seq![tag_tok(t)];
                            lemma_render_one(tag_tok(t), var0);
                        }
                    },
                    Option::None => {},
                }
            },
        }
        proof {
            assert(self.writer@ =~= out0 + render(pre, var0));
        }
        match self.serialize_value(key) {
            Result::Err(err) => {
                return Result::Err(err);
            },
            Result::Ok(_) => {},
        }
        proof {
            let kt = toks_value(key@, rw0)->Some_0;
            lemma_render_concat(pre, kt, var0);
            assert((out0 + render(pre, var0)) + render(kt, var0) =~= out0 + render(
                pre + kt,
                var0,
            ));
        }
        match self.serialize_value(value) {
            Result::Err(err) => {
                return Result::Err(err);
            },
            Result::Ok(_) => {},
        }
        proof {
            let kt = toks_value(key@, rw0)->Some_0;
            let vt = toks_value(value@, rw_after(key@, rw0))->Some_0;
            lemma_render_concat(pre + kt, vt, var0);
            assert((out0 + render(pre + kt, var0)) + render(vt, var0) =~= out0 + render(
                (pre + kt) + vt,
                var0,
            ));
            assert((pre + kt) + vt =~= pre + kt + vt);
        }
        Result::Ok(())
    }

    /// Encodes one struct field. The field's value is probed first; if the
    /// probe reports it omitted, nothing at all is written. Otherwise the
    /// probed tag, the field's name, and the payload follow, with one
    /// layer of a present optional peeled off the value.
    pub fn serialize_field(&mut self, key: &str, value: &Value) -> (r: Result<(), NbtError>)
        ensures
            final(self).variant == old(self).variant,
            final(self).len == old(self).len,
            (r is Ok) <==> field_step_rw(key@, value@, !old(self).is_initial) is Some,
            r is Ok ==> final(self).writer@ == old(self).writer@ + render(
                field_step_rw(key@, value@, !old(self).is_initial)->Some_0,
                old(self).variant,
            ),
            r matches Result::Err(e) ==> e matches NbtError::UnsupportedShape(_),
    {
        let ghost var0: Variant = self.variant;
        let ghost out0: Seq<u8> = self.writer@;
        let ghost rw0: bool = !self.is_initial;
        let prober = FieldTypeSerializer::new();
        match prober.field_type(value) {
            Result::Err(err) => Result::Err(err),
            Result::Ok(Option::None) => {
                proof {
                    assert(out0 + render(Seq::<Token>::empty(), var0) =~= out0);
                }
                Result::Ok(())
            },
            Result::Ok(Option::Some(t)) => {
                self.write_tag(t);
                proof {
                    lemma_render_one(tag_tok(t), var0);
                    assert(self.writer@ =~= out0 + render(seq![tag_tok(t)], var0));
                }
                let _ = self.serialize_str(key);
                proof {
                    lemma_render_concat(seq![tag_tok(t)], str_toks(key@), var0);
                    assert((out0 + render(seq![tag_tok(t)], var0)) + render(
                        str_toks(key@),
                        var0,
                    ) =~= out0 + render(seq![tag_tok(t)] + str_toks(key@), var0));
                }
                let pv: &Value = match value {
                    Value::Optional(o) => match o {
                        Option::Some(b) => &**b,
                        Option::None => value,
                    },
                    _ => value,
                };
                proof {
                    assert(pv@ == unwrap_field(value@));
                }
                match self.serialize_value(pv) {
                    Result::Err(err) => Result::Err(err),
                    Result::Ok(_) => {
                        proof {
                            let pay = toks_value(unwrap_field(value@), rw0)->Some_0;
                            lemma_render_concat(seq![tag_tok(t)] + str_toks(key@), pay, var0);
                            assert((out0 + render(seq![tag_tok(t)] + str_toks(key@), var0))
                                + render(pay, var0) =~= out0 + render(
                                (seq![tag_tok(t)] + str_toks(key@)) + pay,
                                var0,
                            ));
                            assert((seq![tag_tok(t)] + str_toks(key@)) + pay =~= seq![tag_tok(t)]
                                + str_toks(key@) + pay);
                        }
                        Result::Ok(())
                    },
                }
            },
        }
    }

    /// Closes a compound: writes exactly one `End` tag. Sequences close
    /// without a terminator, so this belongs to maps and structs alone.
    pub fn end(&mut self) -> (r: Result<(), NbtError>)
        ensures
            r is Ok,
            final(self).writer@ == old(self).writer@ + seq![TAG_END],
            final(self).is_initial == old(self).is_initial,
            final(self).len == old(self).len,
            final(self).variant == old(self).variant,
    {
        self.write_tag(TAG_END);
        Result::Ok(())
    }

    /// An absent optional has no bare payload; it is only meaningful as a
    /// struct field, where the probe omits it.
    pub fn serialize_none(&mut self) -> (r: Result<(), NbtError>)
        ensures
            r == Result::<(), NbtError>::Err(NbtError::UnsupportedShape(ShapeKind::BareOptional)),
            final(self).writer@ == old(self).writer@,
            final(self).is_initial == old(self).is_initial,
            final(self).len == old(self).len,
            final(self).variant == old(self).variant,
    {
        Result::Err(NbtError::UnsupportedShape(ShapeKind::BareOptional))
    }

    /// A present optional has no bare payload either; see
    /// `serialize_field` for the one place optionals are accepted.
    pub fn serialize_some(&mut self, _value: &Value) -> (r: Result<(), NbtError>)
        ensures
            r == Result::<(), NbtError>::Err(NbtError::UnsupportedShape(ShapeKind::BareOptional)),
            final(self).writer@ == old(self).writer@,
            final(self).is_initial == old(self).is_initial,
            final(self).len == old(self).len,
            final(self).variant == old(self).variant,
    {
        Result::Err(NbtError::UnsupportedShape(ShapeKind::BareOptional))
    }

    /// The unit value has no representation on the wire.
    pub fn serialize_unit(&mut self) -> (r: Result<(), NbtError>)
        ensures
            r == Result::<(), NbtError>::Err(NbtError::UnsupportedShape(ShapeKind::Unit)),
            final(self).writer@ == old(self).writer@,
            final(self).is_initial == old(self).is_initial,
            final(self).len == old(self).len,
            final(self).variant == old(self).variant,
    {
        Result::Err(NbtError::UnsupportedShape(ShapeKind::Unit))
    }

    /// A map key must travel with its value through `serialize_entry`, so
    /// that the value can be probed before the key is written.
    pub fn serialize_key(&mut self, _key: &Value) -> (r: Result<(), NbtError>)
        ensures
            r == Result::<(), NbtError>::Err(NbtError::UnsupportedShape(ShapeKind::SplitEntry)),
            final(self).writer@ == old(self).writer@,
            final(self).is_initial == old(self).is_initial,
            final(self).len == old(self).len,
            final(self).variant == old(self).variant,
    {
        Result::Err(NbtError::UnsupportedShape(ShapeKind::SplitEntry))
    }

    /// A unit struct has no representation on the wire.
    pub fn serialize_unit_struct(&mut self, _name: &str) -> (r: Result<(), NbtError>)
        ensures
            r == Result::<(), NbtError>::Err(NbtError::UnsupportedShape(ShapeKind::UnitStruct)),
            final(self).writer@ == old(self).writer@,
            final(self).is_initial == old(self).is_initial,
            final(self).len == old(self).len,
            final(self).variant == old(self).variant,
    {
        Result::Err(NbtError::UnsupportedShape(ShapeKind::UnitStruct))
    }

    /// A unit enum variant has no representation on the wire.
    pub fn serialize_unit_variant(
        &mut self,
        _name: &str,
        _variant_index: u32,
        _variant: &str,
    ) -> (r: Result<(), NbtError>)
        ensures
            r == Result::<(), NbtError>::Err(NbtError::UnsupportedShape(ShapeKind::EnumVariant)),
            final(self).writer@ == old(self).writer@,
            final(self).is_initial == old(self).is_initial,
            final(self).len == old(self).len,
            final(self).variant == old(self).variant,
    {
        Result::Err(NbtError::UnsupportedShape(ShapeKind::EnumVariant))
    }

    /// A newtype struct has no representation on the wire.
    pub fn serialize_newtype_struct(&mut self, _name: &str, _value: &Value) -> (r: Result<
        (),
        NbtError,
    >)
        ensures
            r == Result::<(), NbtError>::Err(
                NbtError::UnsupportedShape(ShapeKind::NewtypeStruct),
            ),
            final(self).writer@ == old(self).writer@,
            final(self).is_initial == old(self).is_initial,
            final(self).len == old(self).len,
            final(self).variant == old(self).variant,
    {
        Result::Err(NbtError::UnsupportedShape(ShapeKind::NewtypeStruct))
    }

    /// A newtype enum variant has no representation on the wire.
    pub fn serialize_newtype_variant(
        &mut self,
        _name: &str,
        _variant_index: u32,
        _variant: &str,
        _value: &Value,
    ) -> (r: Result<(), NbtError>)
        ensures
            r == Result::<(), NbtError>::Err(NbtError::UnsupportedShape(ShapeKind::EnumVariant)),
            final(self).writer@ == old(self).writer@,
            final(self).is_initial == old(self).is_initial,
            final(self).len == old(self).len,
            final(self).variant == old(self).variant,
    {
        Result::Err(NbtError::UnsupportedShape(ShapeKind::EnumVariant))
    }

    /// A tuple struct has no representation on the wire.
    pub fn serialize_tuple_struct(&mut self, _name: &str, _len: usize) -> (r: Result<
        (),
        NbtError,
    >)
        ensures
            r == Result::<(), NbtError>::Err(NbtError::UnsupportedShape(ShapeKind::TupleStruct)),
            final(self).writer@ == old(self).writer@,
            final(self).is_initial == old(self).is_initial,
            final(self).len == old(self).len,
            final(self).variant == old(self).variant,
    {
        Result::Err(NbtError::UnsupportedShape(ShapeKind::TupleStruct))
    }

    /// A tuple enum variant has no representation on the wire.
    pub fn serialize_tuple_variant(
        &mut self,
        _name: &str,
        _variant_index: u32,
        _variant: &str,
        _len: usize,
    ) -> (r: Result<(), NbtError>)
        ensures
            r == Result::<(), NbtError>::Err(NbtError::UnsupportedShape(ShapeKind::EnumVariant)),
            final(self).writer@ == old(self).writer@,
            final(self).is_initial == old(self).is_initial,
            final(self).len == old(self).len,
            final(self).variant == old(self).variant,
    {
        Result::Err(NbtError::UnsupportedShape(ShapeKind::EnumVariant))
    }

    /// A struct enum variant has no representation on the wire.
    pub fn serialize_struct_variant(
        &mut self,
        _name: &str,
        _variant_index: u32,
        _variant: &str,
        _len: usize,
    ) -> (r: Result<(), NbtError>)
        ensures
            r == Result::<(), NbtError>::Err(NbtError::UnsupportedShape(ShapeKind::EnumVariant)),
            final(self).writer@ == old(self).writer@,
            final(self).is_initial == old(self).is_initial,
            final(self).len == old(self).len,
            final(self).variant == old(self).variant,
    {
        Result::Err(NbtError::UnsupportedShape(ShapeKind::EnumVariant))
    }
}

/// Serializes the given value under the given wire variant into a fresh
/// byte buffer: exactly the values with a token stream succeed, and the
/// buffer returned is that stream's rendering.
pub fn to_bytes(v: &Value, variant: Variant) -> (r: Result<Vec<u8>, NbtError>)
    ensures
        (r is Ok) <==> doc_toks(v@) is Some,
        r matches Result::Ok(out) ==> out@ == render(doc_toks(v@)->Some_0, variant),
        r matches Result::Err(e) ==> e matches NbtError::UnsupportedShape(_),
{
    let mut ser = Serializer::new(Vec::new(), variant);
    match ser.serialize_value(v) {
        Result::Ok(_) => {
            proof {
                assert(Seq::<u8>::empty() + render(doc_toks(v@)->Some_0, variant) =~= render(
                    doc_toks(v@)->Some_0,
                    variant,
                ));
            }
            Result::Ok(ser.into_inner())
        },
        Result::Err(e) => Result::Err(e),
    }
}

/// Serializes the given value under the given wire variant, appending to
/// the given sink. On failure the bytes already written stay in the sink.
pub fn to_bytes_in(writer: &mut Vec<u8>, v: &Value, variant: Variant) -> (r: Result<
    (),
    NbtError,
>)
    ensures
        (r is Ok) <==> doc_toks(v@) is Some,
        r is Ok ==> final(writer)@ == old(writer)@ + render(doc_toks(v@)->Some_0, variant),
        r matches Result::Err(e) ==> e matches NbtError::UnsupportedShape(_),
{
    let mut w: Vec<u8> = Vec::new();
    core::mem::swap(writer, &mut w);
    let mut ser = Serializer::new(w, variant);
    let r = ser.serialize_value(v);
    let mut out = ser.into_inner();
    core::mem::swap(writer, &mut out);
    match r {
        Result::Ok(_) => Result::Ok(()),
        Result::Err(e) => Result::Err(e),
    }
}

/// Serializes in the network little-endian layout, the Bedrock edition's
/// network format.
pub fn to_net_bytes(v: &Value) -> (r: Result<Vec<u8>, NbtError>)
    ensures
        (r is Ok) <==> doc_toks(v@) is Some,
        r matches Result::Ok(out) ==> out@ == render(doc_toks(v@)->Some_0, Variant::NetworkEndian),
        r matches Result::Err(e) ==> e matches NbtError::UnsupportedShape(_),
{
    to_bytes(v, Variant::NetworkEndian)
}

/// Serializes in the network little-endian layout, appending to the given
/// sink.
pub fn to_net_bytes_in(writer: &mut Vec<u8>, v: &Value) -> (r: Result<(), NbtError>)
    ensures
        (r is Ok) <==> doc_toks(v@) is Some,
        r is Ok ==> final(writer)@ == old(writer)@ + render(
            doc_toks(v@)->Some_0,
            Variant::NetworkEndian,
        ),
        r matches Result::Err(e) ==> e matches NbtError::UnsupportedShape(_),
{
    to_bytes_in(writer, v, Variant::NetworkEndian)
}

/// Serializes in the big-endian layout, the Java edition's format.
pub fn to_be_bytes(v: &Value) -> (r: Result<Vec<u8>, NbtError>)
    ensures
        (r is Ok) <==> doc_toks(v@) is Some,
        r matches Result::Ok(out) ==> out@ == render(doc_toks(v@)->Some_0, Variant::BigEndian),
        r matches Result::Err(e) ==> e matches NbtError::UnsupportedShape(_),
{
    to_bytes(v, Variant::BigEndian)
}

/// Serializes in the big-endian layout, appending to the given sink.
pub fn to_be_bytes_in(writer: &mut Vec<u8>, v: &Value) -> (r: Result<(), NbtError>)
    ensures
        (r is Ok) <==> doc_toks(v@) is Some,
        r is Ok ==> final(writer)@ == old(writer)@ + render(
            doc_toks(v@)->Some_0,
            Variant::BigEndian,
        ),
        r matches Result::Err(e) ==> e matches NbtError::UnsupportedShape(_),
{
    to_bytes_in(writer, v, Variant::BigEndian)
}

/// Serializes in the little-endian layout, the Bedrock edition's disk
/// format.
pub fn to_le_bytes(v: &Value) -> (r: Result<Vec<u8>, NbtError>)
    ensures
        (r is Ok) <==> doc_toks(v@) is Some,
        r matches Result::Ok(out) ==> out@ == render(doc_toks(v@)->Some_0, Variant::LittleEndian),
        r matches Result::Err(e) ==> e matches NbtError::UnsupportedShape(_),
{
    to_bytes(v, Variant::LittleEndian)
}

/// Serializes in the little-endian layout, appending to the given sink.
pub fn to_le_bytes_in(writer: &mut Vec<u8>, v: &Value) -> (r: Result<(), NbtError>)
    ensures
        (r is Ok) <==> doc_toks(v@) is Some,
        r is Ok ==> final(writer)@ == old(writer)@ + render(
            doc_toks(v@)->Some_0,
            Variant::LittleEndian,
        ),
        r matches Result::Err(e) ==> e matches NbtError::UnsupportedShape(_),
{
    to_bytes_in(writer, v, Variant::LittleEndian)
}

/// The probe: a second dispatcher over exactly the shapes the primary
/// encoder accepts. The generic traversal reveals a value's shape only
/// while consuming it, so the tag byte a container must write *before* a
/// value's payload is learned by this extra pass over the same value.
pub struct FieldTypeSerializer {}

impl FieldTypeSerializer {
    pub fn new() -> (p: FieldTypeSerializer) {
        FieldTypeSerializer {  }
    }

    /// Reports the tag byte `v` announces: `Some(tag)` when a tag is to be
    /// written, `None` when the value is to be omitted entirely (an absent
    /// optional). A present optional announces the tag of what it wraps.
    /// Rejects a shape exactly when the primary encoder rejects it.
    pub fn field_type(&self, v: &Value) -> (r: Result<Option<u8>, NbtError>)
        ensures
            r matches Result::Ok(t) ==> probe_result(v@) == Option::Some(t),
            r is Ok <==> probe_result(v@) is Some,
            r matches Result::Err(e) ==> e matches NbtError::UnsupportedShape(_),
        decreases v,
    {
        match v {
            Value::Bool(_) => Result::Ok(Option::Some(crate::model::TAG_BYTE)),
            Value::Byte(_) => Result::Ok(Option::Some(crate::model::TAG_BYTE)),
            Value::Short(_) => Result::Ok(Option::Some(crate::model::TAG_SHORT)),
            Value::Int(_) => Result::Ok(Option::Some(crate::model::TAG_INT)),
            Value::Long(_) => Result::Ok(Option::Some(crate::model::TAG_LONG)),
            Value::Float(_) => Result::Ok(Option::Some(crate::model::TAG_FLOAT)),
            Value::Double(_) => Result::Ok(Option::Some(crate::model::TAG_DOUBLE)),
            Value::Str(_) => Result::Ok(Option::Some(crate::model::TAG_STRING)),
            Value::ByteArray(_) => Result::Ok(Option::Some(crate::model::TAG_BYTE_ARRAY)),
            Value::List(_) => Result::Ok(Option::Some(crate::model::TAG_LIST)),
            Value::Compound(_) => Result::Ok(Option::Some(TAG_COMPOUND)),
            Value::Struct(_, _) => Result::Ok(Option::Some(TAG_COMPOUND)),
            Value::Optional(o) => match o {
                Option::None => Result::Ok(Option::None),
                Option::Some(b) => match &**b {
                    Value::Optional(_) => Result::Err(
                        NbtError::UnsupportedShape(ShapeKind::BareOptional),
                    ),
                    _ => self.field_type(&**b),
                },
            },
            Value::UShort(_) => Result::Err(NbtError::UnsupportedShape(ShapeKind::UnsignedInt)),
            Value::UInt(_) => Result::Err(NbtError::UnsupportedShape(ShapeKind::UnsignedInt)),
            Value::ULong(_) => Result::Err(NbtError::UnsupportedShape(ShapeKind::UnsignedInt)),
            Value::Char(_) => Result::Err(NbtError::UnsupportedShape(ShapeKind::Char)),
            Value::Unit => Result::Err(NbtError::UnsupportedShape(ShapeKind::Unit)),
        }
    }
}

} // verus!
