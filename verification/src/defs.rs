//! Tag bytes, bit masks and size limits of the MessagePack wire format.

use vstd::prelude::*;

verus! {

/// Smallest value stored in a single negative-fixint byte.
pub const FIXINT_MIN: i8 = -32;

/// Largest value stored in a single positive-fixint byte.
pub const FIXINT_MAX: u8 = 0x7f;

pub const FIXMAP_MASK: u8 = 0x80;

pub const FIXARRAY_MASK: u8 = 0x90;

pub const FIXSTR_MASK: u8 = 0xa0;

pub const NEG_FIXINT_MASK: u8 = 0xe0;

pub const NIL: u8 = 0xc0;

/// The one tag byte that the format leaves unassigned.
pub const RESERVED: u8 = 0xc1;

pub const FALSE: u8 = 0xc2;

pub const TRUE: u8 = 0xc3;

pub const BIN8: u8 = 0xc4;

pub const BIN16: u8 = 0xc5;

pub const BIN32: u8 = 0xc6;

pub const EXT8: u8 = 0xc7;

pub const EXT16: u8 = 0xc8;

pub const EXT32: u8 = 0xc9;

pub const FLOAT32: u8 = 0xca;

pub const FLOAT64: u8 = 0xcb;

pub const UINT8: u8 = 0xcc;

pub const UINT16: u8 = 0xcd;

pub const UINT32: u8 = 0xce;

pub const UINT64: u8 = 0xcf;

pub const INT8: u8 = 0xd0;

pub const INT16: u8 = 0xd1;

pub const INT32: u8 = 0xd2;

pub const INT64: u8 = 0xd3;

pub const FIXEXT1: u8 = 0xd4;

pub const FIXEXT2: u8 = 0xd5;

pub const FIXEXT4: u8 = 0xd6;

pub const FIXEXT8: u8 = 0xd7;

pub const FIXEXT16: u8 = 0xd8;

pub const STR8: u8 = 0xd9;

pub const STR16: u8 = 0xda;

pub const STR32: u8 = 0xdb;

pub const ARRAY16: u8 = 0xdc;

pub const ARRAY32: u8 = 0xdd;

pub const MAP16: u8 = 0xde;

pub const MAP32: u8 = 0xdf;

pub const U16_BYTES: usize = 2;

pub const U32_BYTES: usize = 4;

pub const U64_BYTES: usize = 8;

pub const MAX_FIXSTR: usize = 31;

pub const MAX_FIXARRAY: usize = 15;

pub const MAX_FIXMAP: usize = 15;

pub const MAX_STR8: usize = 0xff;

pub const MAX_STR16: usize = 0xffff;

pub const MAX_STR32: usize = 0xffff_ffff;

pub const MAX_BIN8: usize = 0xff;

pub const MAX_BIN16: usize = 0xffff;

pub const MAX_BIN32: usize = 0xffff_ffff;

pub const MAX_ARRAY16: usize = 0xffff;

pub const MAX_ARRAY32: usize = 0xffff_ffff;

pub const MAX_MAP16: usize = 0xffff;

pub const MAX_MAP32: usize = 0xffff_ffff;

pub const MAX_EXT8: usize = 0xff;

pub const MAX_EXT16: usize = 0xffff;

pub const MAX_EXT32: usize = 0xffff_ffff;

/// Tags `0x00..=0x7f`: the byte is the value.
pub open spec fn is_pos_fixint(tag: u8) -> bool {
    tag <= 0x7f
}

/// Tags `0x80..=0x8f`: a map whose pair count is the low nibble.
pub open spec fn is_fixmap(tag: u8) -> bool {
    0x80 <= tag <= 0x8f
}

/// Tags `0x90..=0x9f`: an array whose element count is the low nibble.
pub open spec fn is_fixarray(tag: u8) -> bool {
    0x90 <= tag <= 0x9f
}

/// Tags `0xa0..=0xbf`: a string whose byte length is the low five bits.
pub open spec fn is_fixstr(tag: u8) -> bool {
    0xa0 <= tag <= 0xbf
}

/// Tags `0xe0..=0xff`: the byte, read as two's complement, is the value.
pub open spec fn is_neg_fixint(tag: u8) -> bool {
    0xe0 <= tag
}

#[verifier::when_used_as_spec(is_pos_fixint)]
pub fn pos_fixint(tag: u8) -> (r: bool)
    ensures
        r == is_pos_fixint(tag),
{
    tag <= FIXINT_MAX
}

#[verifier::when_used_as_spec(is_fixmap)]
pub fn fixmap(tag: u8) -> (r: bool)
    ensures
        r == is_fixmap(tag),
{
    FIXMAP_MASK <= tag && tag < FIXARRAY_MASK
}

#[verifier::when_used_as_spec(is_fixarray)]
pub fn fixarray(tag: u8) -> (r: bool)
    ensures
        r == is_fixarray(tag),
{
    FIXARRAY_MASK <= tag && tag < FIXSTR_MASK
}

#[verifier::when_used_as_spec(is_fixstr)]
pub fn fixstr(tag: u8) -> (r: bool)
    ensures
        r == is_fixstr(tag),
{
    FIXSTR_MASK <= tag && tag < NIL
}

#[verifier::when_used_as_spec(is_neg_fixint)]
pub fn neg_fixint(tag: u8) -> (r: bool)
    ensures
        r == is_neg_fixint(tag),
{
    NEG_FIXINT_MASK <= tag
}

} // verus!
