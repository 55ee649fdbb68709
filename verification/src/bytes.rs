//! Byte-level encodings of the scalar field kinds: fixed-width big- and
//! little-endian integers and the 7-bit variable-length form, together with
//! the trusted writers that put them into the output sink.

use vstd::prelude::*;

verus! {

/// The two bytes of a 16-bit value, most significant first.
pub open spec fn be16(x: u16) -> Seq<u8> {
    seq![(x / 0x100) as u8, (x % 0x100) as u8]
}

/// The two bytes of a 16-bit value, least significant first.
pub open spec fn le16(x: u16) -> Seq<u8> {
    seq![(x % 0x100) as u8, (x / 0x100) as u8]
}

/// The four bytes of a 32-bit value, most significant first.
pub open spec fn be32(x: u32) -> Seq<u8> {
    seq![
        (x / 0x1000000) as u8,
        ((x / 0x10000) % 0x100) as u8,
        ((x / 0x100) % 0x100) as u8,
        (x % 0x100) as u8,
    ]
}

/// The four bytes of a 32-bit value, least significant first.
pub open spec fn le32(x: u32) -> Seq<u8> {
    be32(x).reverse()
}

/// The eight bytes of a 64-bit value, most significant first.
pub open spec fn be64(x: u64) -> Seq<u8> {
    seq![
        (x / 0x100000000000000) as u8,
        ((x / 0x1000000000000) % 0x100) as u8,
        ((x / 0x10000000000) % 0x100) as u8,
        ((x / 0x100000000) % 0x100) as u8,
        ((x / 0x1000000) % 0x100) as u8,
        ((x / 0x10000) % 0x100) as u8,
        ((x / 0x100) % 0x100) as u8,
        (x % 0x100) as u8,
    ]
}

/// The eight bytes of a 64-bit value, least significant first.
pub open spec fn le64(x: u64) -> Seq<u8> {
    be64(x).reverse()
}

/// The variable-length form of an unsigned value: 7 payload bits per byte,
/// least significant group first, the high bit of a byte flagging that more
/// bytes follow. Every value has exactly one such form, of minimal length.
pub open spec fn varint(n: nat) -> Seq<u8>
    decreases n,
{
    if n < 0x80 {
        seq![n as u8]
    } else {
        seq![(n % 0x80 + 0x80) as u8] + varint(n / 0x80)
    }
}

/// The zigzag image of a 32-bit signed value: non-negative `v` becomes
/// `2 * v`, negative `v` becomes `-2 * v - 1`.
pub open spec fn zigzag32(v: i32) -> nat {
    if v >= 0 {
        (2 * (v as int)) as nat
    } else {
        (-2 * (v as int) - 1) as nat
    }
}

/// The zigzag image of a 64-bit signed value.
pub open spec fn zigzag64(v: i64) -> nat {
    if v >= 0 {
        (2 * (v as int)) as nat
    } else {
        (-2 * (v as int) - 1) as nat
    }
}

/// The unsigned 8-bit value with the same bits as `x`.
pub open spec fn u8_bits_of_i8(x: i8) -> u8 {
    if x >= 0 {
        x as u8
    } else {
        (x + 0x100) as u8
    }
}

/// The unsigned 16-bit value with the same bits as `x`.
pub open spec fn u16_bits_of_i16(x: i16) -> u16 {
    if x >= 0 {
        x as u16
    } else {
        (x + 0x10000) as u16
    }
}

/// The unsigned 32-bit value with the same bits as `x`.
pub open spec fn u32_bits_of_i32(x: i32) -> u32 {
    if x >= 0 {
        x as u32
    } else {
        (x + 0x100000000) as u32
    }
}

/// The unsigned 64-bit value with the same bits as `x`.
pub open spec fn u64_bits_of_i64(x: i64) -> u64 {
    if x >= 0 {
        x as u64
    } else {
        (x + 0x10000000000000000) as u64
    }
}

/// The signed 32-bit value with the same bits as `x`.
pub open spec fn i32_of_bits(x: u32) -> i32 {
    if x < 0x80000000 {
        x as i32
    } else {
        (x - 0x100000000) as i32
    }
}

/// A length reduced to the low 16 bits, as the fixed-width layouts store
/// string lengths.
pub open spec fn low16(n: nat) -> u16 {
    (n % 0x10000) as u16
}

/// A length reduced to the low 32 bits.
pub open spec fn low32(n: nat) -> u32 {
    (n % 0x100000000) as u32
}

/// Relies on byteorder's `WriteBytesExt::write_u16::<BigEndian>`: appends the
/// two bytes of `v`, most significant first. `std::io::Write` on a `Vec`
/// cannot fail.
#[verifier::external_body]
pub(crate) fn write_u16_be(out: &mut Vec<u8>, v: u16)
    ensures
        final(out)@ == old(out)@ + be16(v),
{
    byteorder::WriteBytesExt::write_u16::<byteorder::BigEndian>(out, v).unwrap();
}

/// Relies on byteorder's `WriteBytesExt::write_u16::<LittleEndian>`: appends
/// the two bytes of `v`, least significant first.
#[verifier::external_body]
pub(crate) fn write_u16_le(out: &mut Vec<u8>, v: u16)
    ensures
        final(out)@ == old(out)@ + le16(v),
{
    byteorder::WriteBytesExt::write_u16::<byteorder::LittleEndian>(out, v).unwrap();
}

/// Relies on byteorder's `WriteBytesExt::write_i16::<BigEndian>`: appends the
/// two bytes of `v`'s two's-complement image, most significant first.
#[verifier::external_body]
pub(crate) fn write_i16_be(out: &mut Vec<u8>, v: i16)
    ensures
        final(out)@ == old(out)@ + be16(u16_bits_of_i16(v)),
{
    byteorder::WriteBytesExt::write_i16::<byteorder::BigEndian>(out, v).unwrap();
}

/// Relies on byteorder's `WriteBytesExt::write_i16::<LittleEndian>`: appends
/// the two bytes of `v`'s two's-complement image, least significant first.
#[verifier::external_body]
pub(crate) fn write_i16_le(out: &mut Vec<u8>, v: i16)
    ensures
        final(out)@ == old(out)@ + le16(u16_bits_of_i16(v)),
{
    byteorder::WriteBytesExt::write_i16::<byteorder::LittleEndian>(out, v).unwrap();
}

/// Relies on byteorder's `WriteBytesExt::write_u32::<BigEndian>`: appends the
/// four bytes of `v`, most significant first.
#[verifier::external_body]
pub(crate) fn write_u32_be(out: &mut Vec<u8>, v: u32)
    ensures
        final(out)@ == old(out)@ + be32(v),
{
    byteorder::WriteBytesExt::write_u32::<byteorder::BigEndian>(out, v).unwrap();
}

/// Relies on byteorder's `WriteBytesExt::write_u32::<LittleEndian>`: appends
/// the four bytes of `v`, least significant first.
#[verifier::external_body]
pub(crate) fn write_u32_le(out: &mut Vec<u8>, v: u32)
    ensures
        final(out)@ == old(out)@ + le32(v),
{
    byteorder::WriteBytesExt::write_u32::<byteorder::LittleEndian>(out, v).unwrap();
}

/// Relies on byteorder's `WriteBytesExt::write_i32::<BigEndian>`: appends the
/// four bytes of `v`'s two's-complement image, most significant first.
#[verifier::external_body]
pub(crate) fn write_i32_be(out: &mut Vec<u8>, v: i32)
    ensures
        final(out)@ == old(out)@ + be32(u32_bits_of_i32(v)),
{
    byteorder::WriteBytesExt::write_i32::<byteorder::BigEndian>(out, v).unwrap();
}

/// Relies on byteorder's `WriteBytesExt::write_i32::<LittleEndian>`: appends
/// the four bytes of `v`'s two's-complement image, least significant first.
#[verifier::external_body]
pub(crate) fn write_i32_le(out: &mut Vec<u8>, v: i32)
    ensures
        final(out)@ == old(out)@ + le32(u32_bits_of_i32(v)),
{
    byteorder::WriteBytesExt::write_i32::<byteorder::LittleEndian>(out, v).unwrap();
}

/// Relies on byteorder's `WriteBytesExt::write_u64::<BigEndian>`: appends the
/// eight bytes of `v`, most significant first.
#[verifier::external_body]
pub(crate) fn write_u64_be(out: &mut Vec<u8>, v: u64)
    ensures
        final(out)@ == old(out)@ + be64(v),
{
    byteorder::WriteBytesExt::write_u64::<byteorder::BigEndian>(out, v).unwrap();
}

/// Relies on byteorder's `WriteBytesExt::write_u64::<LittleEndian>`: appends
/// the eight bytes of `v`, least significant first.
#[verifier::external_body]
pub(crate) fn write_u64_le(out: &mut Vec<u8>, v: u64)
    ensures
        final(out)@ == old(out)@ + le64(v),
{
    byteorder::WriteBytesExt::write_u64::<byteorder::LittleEndian>(out, v).unwrap();
}

/// Relies on byteorder's `WriteBytesExt::write_i64::<BigEndian>`: appends the
/// eight bytes of `v`'s two's-complement image, most significant first.
#[verifier::external_body]
pub(crate) fn write_i64_be(out: &mut Vec<u8>, v: i64)
    ensures
        final(out)@ == old(out)@ + be64(u64_bits_of_i64(v)),
{
    byteorder::WriteBytesExt::write_i64::<byteorder::BigEndian>(out, v).unwrap();
}

/// Relies on byteorder's `WriteBytesExt::write_i64::<LittleEndian>`: appends
/// the eight bytes of `v`'s two's-complement image, least significant first.
#[verifier::external_body]
pub(crate) fn write_i64_le(out: &mut Vec<u8>, v: i64)
    ensures
        final(out)@ == old(out)@ + le64(u64_bits_of_i64(v)),
{
    byteorder::WriteBytesExt::write_i64::<byteorder::LittleEndian>(out, v).unwrap();
}

/// Relies on varint-rs's `VarintWriter::write_u32_varint`: appends the
/// 7-bits-per-byte form of `v`, least significant group first, high bit set
/// on every byte but the last.
#[verifier::external_body]
pub(crate) fn write_u32_varint(out: &mut Vec<u8>, v: u32)
    ensures
        final(out)@ == old(out)@ + varint(v as nat),
{
    varint_rs::VarintWriter::write_u32_varint(out, v).unwrap();
}

/// Relies on varint-rs's `VarintWriter::write_i32_varint`: maps `v` through
/// zigzag (`(v << 1) ^ (v >> 31)`, that is `2 * v` for non-negative `v` and
/// `-2 * v - 1` for negative `v`) and appends the 7-bits-per-byte form of
/// the image.
#[verifier::external_body]
pub(crate) fn write_i32_varint(out: &mut Vec<u8>, v: i32)
    ensures
        final(out)@ == old(out)@ + varint(zigzag32(v)),
{
    varint_rs::VarintWriter::write_i32_varint(out, v).unwrap();
}

/// Relies on varint-rs's `VarintWriter::write_i64_varint`: as
/// `write_i32_varint`, over 64 bits.
#[verifier::external_body]
pub(crate) fn write_i64_varint(out: &mut Vec<u8>, v: i64)
    ensures
        final(out)@ == old(out)@ + varint(zigzag64(v)),
{
    varint_rs::VarintWriter::write_i64_varint(out, v).unwrap();
}

/// Appends a run of raw bytes to the sink.
pub(crate) fn push_bytes(out: &mut Vec<u8>, bs: &[u8])
    ensures
        final(out)@ == old(out)@ + bs@,
{
    let n = bs.len();
    let mut i: usize = 0;
    while i < n
        invariant
            i <= n,
            n == bs@.len(),
            out@ == old(out)@ + bs@.subrange(0, i as int),
        decreases n - i,
    {
        out.push(bs[i]);
        proof {
            assert(bs@.subrange(0, i + 1) =~= bs@.subrange(0, i as int) + seq![bs@[i as int]]);
            assert(old(out)@ + bs@.subrange(0, i + 1) =~= (old(out)@ + bs@.subrange(
                0,
                i as int,
            )).push(bs@[i as int]));
        }
        i = i + 1;
    }
    proof {
        assert(bs@.subrange(0, n as int) =~= bs@);
    }
}

/// The unsigned 8-bit value with the same bits as `x`.
pub fn u8_from_i8(x: i8) -> (r: u8)
    ensures
        r == u8_bits_of_i8(x),
{
    if x >= 0 {
        x as u8
    } else {
        ((x as i16) + 0x100) as u8
    }
}

/// The signed 32-bit value with the same bits as `x`.
pub fn i32_from_bits(x: u32) -> (r: i32)
    ensures
        r == i32_of_bits(x),
{
    if x < 0x80000000 {
        x as i32
    } else {
        ((x as i64) - 0x100000000i64) as i32
    }
}

/// The low 32 bits of a length, as the fixed-width layouts store counts.
pub fn low32_of_len(n: usize) -> (r: u32)
    ensures
        r == low32(n as nat),
{
    ((n as u64) % 0x100000000u64) as u32
}

/// The low 16 bits of a length, as the fixed-width layouts store string
/// lengths.
pub fn low16_of_len(n: usize) -> (r: u16)
    ensures
        r == low16(n as nat),
{
    ((n as u64) % 0x10000u64) as u16
}

} // verus!
