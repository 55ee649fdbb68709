//! The wire stream as a sequence of tokens. A token stream is independent of
//! the wire variant; only `render_token` consults the variant's rule table.
//! This split states exactly which byte regions a variant may change:
//! everything inside a `Fixed` token (tags, names, string and blob payloads,
//! 8-bit scalars, `End` marks) is laid down the same way by all three
//! variants.

use vstd::prelude::*;

use crate::bytes::{
    be16, be32, be64, i32_of_bits, le16, le32, le64, low16, low32, u16_bits_of_i16,
    u32_bits_of_i32, u64_bits_of_i64, varint, zigzag32, zigzag64,
};
use crate::model::Variant;

verus! {

/// One region of the wire stream.
pub enum Token {
    /// Bytes written identically under every variant.
    Fixed(Seq<u8>),
    /// A 16-bit integer payload.
    I16(i16),
    /// A 32-bit integer payload.
    I32(i32),
    /// A 64-bit integer payload.
    I64(i64),
    /// A 32-bit float payload, by its bit pattern.
    F32(u32),
    /// A 64-bit float payload, by its bit pattern.
    F64(u64),
    /// A string length, holding the true byte count; each variant stores
    /// its own reduction of it.
    StrLen(nat),
    /// A byte-array or list element count, holding the true count.
    Count(nat),
}

/// The bytes one token occupies under a variant, per the rule table:
/// 16-bit integers and floats differ only in byte order, 32/64-bit integers
/// and counts become variable-length under the network variant, string
/// lengths are 16-bit words under the fixed-width variants and
/// variable-length unsigned under the network variant.
pub open spec fn render_token(t: Token, var: Variant) -> Seq<u8> {
    match t {
        Token::Fixed(b) => b,
        Token::I16(v) => match var {
            Variant::BigEndian => be16(u16_bits_of_i16(v)),
            _ => le16(u16_bits_of_i16(v)),
        },
        Token::I32(v) => match var {
            Variant::BigEndian => be32(u32_bits_of_i32(v)),
            Variant::LittleEndian => le32(u32_bits_of_i32(v)),
            Variant::NetworkEndian => varint(zigzag32(v)),
        },
        Token::I64(v) => match var {
            Variant::BigEndian => be64(u64_bits_of_i64(v)),
            Variant::LittleEndian => le64(u64_bits_of_i64(v)),
            Variant::NetworkEndian => varint(zigzag64(v)),
        },
        Token::F32(bits) => match var {
            Variant::BigEndian => be32(bits),
            _ => le32(bits),
        },
        Token::F64(bits) => match var {
            Variant::BigEndian => be64(bits),
            _ => le64(bits),
        },
        Token::StrLen(n) => match var {
            Variant::BigEndian => be16(low16(n)),
            Variant::LittleEndian => le16(low16(n)),
            Variant::NetworkEndian => varint(n % 0x100000000),
        },
        Token::Count(n) => match var {
            Variant::BigEndian => be32(low32(n)),
            Variant::LittleEndian => le32(low32(n)),
            Variant::NetworkEndian => varint(zigzag32(i32_of_bits(low32(n)))),
        },
    }
}

/// The bytes of a whole token stream under a variant.
pub open spec fn render(ts: Seq<Token>, var: Variant) -> Seq<u8>
    decreases ts.len(),
{
    if ts.len() == 0 {
        Seq::empty()
    } else {
        render_token(ts[0], var) + render(ts.subrange(1, ts.len() as int), var)
    }
}

pub proof fn lemma_render_one(t: Token, var: Variant)
    ensures
        render(seq![t], var) == render_token(t, var),
{
    assert(seq![t].subrange(1, 1) =~= Seq::<Token>::empty());
    assert(render(Seq::<Token>::empty(), var) == Seq::<u8>::empty());
    assert(seq![t][0] == t);
    assert(render_token(t, var) + Seq::<u8>::empty() =~= render_token(t, var));
}

pub proof fn lemma_render_concat(ts1: Seq<Token>, ts2: Seq<Token>, var: Variant)
    ensures
        render(ts1 + ts2, var) == render(ts1, var) + render(ts2, var),
    decreases ts1.len(),
{
    if ts1.len() == 0 {
        assert(ts1 + ts2 =~= ts2);
        assert(render(ts1, var) + render(ts2, var) =~= render(ts2, var));
    } else {
        let rest = ts1.subrange(1, ts1.len() as int);
        lemma_render_concat(rest, ts2, var);
        assert((ts1 + ts2).subrange(1, (ts1 + ts2).len() as int) =~= rest + ts2);
        assert((ts1 + ts2)[0] == ts1[0]);
        assert(render_token(ts1[0], var) + (render(rest, var) + render(ts2, var))
            =~= (render_token(ts1[0], var) + render(rest, var)) + render(ts2, var));
    }
}

/// Prepending one token to a stream prepends its bytes.
pub proof fn lemma_render_cons(t: Token, ts: Seq<Token>, var: Variant)
    ensures
        render(seq![t] + ts, var) == render_token(t, var) + render(ts, var),
{
    lemma_render_concat(seq![t], ts, var);
    lemma_render_one(t, var);
}

/// Appending one token to a stream appends its bytes.
pub proof fn lemma_render_snoc(ts: Seq<Token>, t: Token, var: Variant)
    ensures
        render(ts.push(t), var) == render(ts, var) + render_token(t, var),
{
    assert(ts.push(t) =~= ts + seq![t]);
    lemma_render_concat(ts, seq![t], var);
    lemma_render_one(t, var);
}

pub proof fn lemma_render_two(t1: Token, t2: Token, var: Variant)
    ensures
        render(seq![t1, t2], var) == render_token(t1, var) + render_token(t2, var),
{
    assert(seq![t1, t2] =~= seq![t1] + seq![t2]);
    lemma_render_cons(t1, seq![t2], var);
    lemma_render_one(t2, var);
}

} // verus!
