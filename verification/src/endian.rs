//! Fixed-width integers as bytes: the mathematical model, and the calls
//! into `byteorder` that produce and read them.

use byteorder::{BigEndian, ByteOrder, LittleEndian};
use vstd::prelude::*;

verus! {

/// `256` to the power `width`: the number of values that `width` bytes hold.
pub open spec fn pow256(width: nat) -> nat
    decreases width,
{
    if width == 0 {
        1
    } else {
        256 * pow256((width - 1) as nat)
    }
}

/// The `width` low base-256 digits of `n`, most significant first.
pub open spec fn be_bytes(n: nat, width: nat) -> Seq<u8>
    decreases width,
{
    if width == 0 {
        Seq::empty()
    } else {
        be_bytes(n / 256, (width - 1) as nat).push((n % 256) as u8)
    }
}

/// The number whose base-256 digits, most significant first, are `bytes`.
pub open spec fn be_value(bytes: Seq<u8>) -> nat
    decreases bytes.len(),
{
    if bytes.len() == 0 {
        0
    } else {
        be_value(bytes.drop_last()) * 256 + bytes.last() as nat
    }
}

/// The two's-complement pattern of `n` in `width` bytes, as a number.
pub open spec fn to_unsigned(n: int, width: nat) -> nat {
    if n < 0 {
        (n + pow256(width)) as nat
    } else {
        n as nat
    }
}

/// The number that the two's-complement pattern `m` of `width` bytes stands for.
pub open spec fn to_signed(m: nat, width: nat) -> int {
    if 2 * m >= pow256(width) {
        m - pow256(width)
    } else {
        m as int
    }
}

/// `byteorder::BigEndian::write_u16` on a two-byte buffer: the buffer then
/// holds the two bytes of `n`, most significant first.
#[verifier::external_body]
pub(crate) fn write_u16_be(n: u16) -> (out: [u8; 2])
    ensures
        out@ == be_bytes(n as nat, 2),
{
    let mut buf = [0u8; 2];
    BigEndian::write_u16(&mut buf, n);
    buf
}

/// `byteorder::BigEndian::write_u32` on a four-byte buffer: the buffer then
/// holds the four bytes of `n`, most significant first.
#[verifier::external_body]
pub(crate) fn write_u32_be(n: u32) -> (out: [u8; 4])
    ensures
        out@ == be_bytes(n as nat, 4),
{
    let mut buf = [0u8; 4];
    BigEndian::write_u32(&mut buf, n);
    buf
}

/// `byteorder::BigEndian::write_u64` on an eight-byte buffer: the buffer
/// then holds the eight bytes of `n`, most significant first.
#[verifier::external_body]
pub(crate) fn write_u64_be(n: u64) -> (out: [u8; 8])
    ensures
        out@ == be_bytes(n as nat, 8),
{
    let mut buf = [0u8; 8];
    BigEndian::write_u64(&mut buf, n);
    buf
}

/// `byteorder::BigEndian::write_i16` on a two-byte buffer: the buffer then
/// holds the two's-complement pattern of `n`, most significant byte first.
#[verifier::external_body]
pub(crate) fn write_i16_be(n: i16) -> (out: [u8; 2])
    ensures
        out@ == be_bytes(to_unsigned(n as int, 2), 2),
{
    let mut buf = [0u8; 2];
    BigEndian::write_i16(&mut buf, n);
    buf
}

/// `byteorder::BigEndian::write_i32` on a four-byte buffer: the buffer then
/// holds the two's-complement pattern of `n`, most significant byte first.
#[verifier::external_body]
pub(crate) fn write_i32_be(n: i32) -> (out: [u8; 4])
    ensures
        out@ == be_bytes(to_unsigned(n as int, 4), 4),
{
    let mut buf = [0u8; 4];
    BigEndian::write_i32(&mut buf, n);
    buf
}

/// `byteorder::BigEndian::write_i64` on an eight-byte buffer: the buffer
/// then holds the two's-complement pattern of `n`, most significant byte
/// first.
#[verifier::external_body]
pub(crate) fn write_i64_be(n: i64) -> (out: [u8; 8])
    ensures
        out@ == be_bytes(to_unsigned(n as int, 8), 8),
{
    let mut buf = [0u8; 8];
    BigEndian::write_i64(&mut buf, n);
    buf
}

/// `byteorder::LittleEndian::write_i16` on a two-byte buffer: the buffer
/// then holds the two's-complement pattern of `n`, least significant byte
/// first.
#[verifier::external_body]
pub(crate) fn write_i16_le(n: i16) -> (out: [u8; 2])
    ensures
        out@ == seq![
            (to_unsigned(n as int, 2) % 256) as u8,
            (to_unsigned(n as int, 2) / 256) as u8,
        ],
{
    let mut buf = [0u8; 2];
    LittleEndian::write_i16(&mut buf, n);
    buf
}

/// `byteorder::BigEndian::read_u16` on exactly two bytes: the number whose
/// digits they are, most significant first.
#[verifier::external_body]
pub(crate) fn read_u16_be(buf: &[u8]) -> (n: u16)
    requires
        buf@.len() == 2,
    ensures
        n as nat == be_value(buf@),
{
    BigEndian::read_u16(buf)
}

/// `byteorder::BigEndian::read_u32` on exactly four bytes: the number whose
/// digits they are, most significant first.
#[verifier::external_body]
pub(crate) fn read_u32_be(buf: &[u8]) -> (n: u32)
    requires
        buf@.len() == 4,
    ensures
        n as nat == be_value(buf@),
{
    BigEndian::read_u32(buf)
}

/// `byteorder::BigEndian::read_u64` on exactly eight bytes: the number
/// whose digits they are, most significant first.
#[verifier::external_body]
pub(crate) fn read_u64_be(buf: &[u8]) -> (n: u64)
    requires
        buf@.len() == 8,
    ensures
        n as nat == be_value(buf@),
{
    BigEndian::read_u64(buf)
}

/// `byteorder::BigEndian::read_i16` on exactly two bytes: the number whose
/// two's-complement pattern they are, most significant byte first.
#[verifier::external_body]
pub(crate) fn read_i16_be(buf: &[u8]) -> (n: i16)
    requires
        buf@.len() == 2,
    ensures
        n as int == to_signed(be_value(buf@), 2),
{
    BigEndian::read_i16(buf)
}

/// `byteorder::BigEndian::read_i32` on exactly four bytes: the number whose
/// two's-complement pattern they are, most significant byte first.
#[verifier::external_body]
pub(crate) fn read_i32_be(buf: &[u8]) -> (n: i32)
    requires
        buf@.len() == 4,
    ensures
        n as int == to_signed(be_value(buf@), 4),
{
    BigEndian::read_i32(buf)
}

/// `byteorder::BigEndian::read_i64` on exactly eight bytes: the number
/// whose two's-complement pattern they are, most significant byte first.
#[verifier::external_body]
pub(crate) fn read_i64_be(buf: &[u8]) -> (n: i64)
    requires
        buf@.len() == 8,
    ensures
        n as int == to_signed(be_value(buf@), 8),
{
    BigEndian::read_i64(buf)
}

/// `byteorder::LittleEndian::read_i16` on exactly two bytes: the number
/// whose two's-complement pattern they are, least significant byte first.
#[verifier::external_body]
pub(crate) fn read_i16_le(buf: &[u8]) -> (n: i16)
    requires
        buf@.len() == 2,
    ensures
        n as int == to_signed((buf@[0] + 256 * buf@[1]) as nat, 2),
{
    LittleEndian::read_i16(buf)
}

/// The values of `pow256` at the widths that the wire format uses.
pub proof fn lemma_pow256_values()
    ensures
        pow256(0) == 1,
        pow256(1) == 0x100,
        pow256(2) == 0x1_0000,
        pow256(4) == 0x1_0000_0000,
        pow256(8) == 0x1_0000_0000_0000_0000,
{
    reveal_with_fuel(pow256, 9);
}

/// `be_bytes` yields exactly `width` bytes.
pub proof fn lemma_be_bytes_len(n: nat, width: nat)
    ensures
        be_bytes(n, width).len() == width,
    decreases width,
{
    if width > 0 {
        lemma_be_bytes_len(n / 256, (width - 1) as nat);
    }
}

/// Bytes read back as a number stay below `256` to the power of their count.
pub proof fn lemma_be_value_bound(bytes: Seq<u8>)
    ensures
        be_value(bytes) < pow256(bytes.len()),
    decreases bytes.len(),
{
    if bytes.len() > 0 {
        lemma_be_value_bound(bytes.drop_last());
    }
}

/// Reading the digits of `n` gives `n` back, where `n` fits in `width` bytes.
pub proof fn lemma_be_value_of_bytes(n: nat, width: nat)
    requires
        n < pow256(width),
    ensures
        be_value(be_bytes(n, width)) == n,
    decreases width,
{
    if width > 0 {
        let rest = be_bytes(n / 256, (width - 1) as nat);
        lemma_be_bytes_len(n / 256, (width - 1) as nat);
        lemma_be_value_of_bytes(n / 256, (width - 1) as nat);
        assert(be_bytes(n, width).drop_last() =~= rest);
    }
}

} // verus!
