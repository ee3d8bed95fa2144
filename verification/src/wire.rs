//! The wire format as mathematics: what each value is encoded as.

use crate::defs::{
    ARRAY16, ARRAY32, BIN16, BIN32, BIN8, EXT16, EXT32, EXT8, FALSE, FIXARRAY_MASK, FIXEXT1,
    FIXEXT16, FIXEXT2, FIXEXT4, FIXEXT8, FIXMAP_MASK, FIXSTR_MASK, FLOAT32, FLOAT64, INT16, INT32,
    INT64, INT8, MAP16, MAP32, NIL, RESERVED, STR16, STR32, STR8, TRUE, UINT16, UINT32, UINT64,
    UINT8,
};
use crate::endian::{be_bytes, be_value, to_signed, to_unsigned};
use crate::error::Reason;
use crate::generic::Value;
use vstd::prelude::*;
use vstd::utf8::*;

verus! {

/// Largest length or count that any size tier can carry.
pub open spec fn max_len() -> nat {
    0xffff_ffff
}

/// The encoding of the unit value.
pub open spec fn encode_nil() -> Seq<u8> {
    seq![NIL]
}

/// The encoding of a boolean.
pub open spec fn encode_bool(value: bool) -> Seq<u8> {
    if value {
        seq![TRUE]
    } else {
        seq![FALSE]
    }
}

/// The encoding of an unsigned integer: the first form, from the shortest
/// up, that holds the value.
pub open spec fn encode_unsigned(value: u64) -> Seq<u8> {
    if value <= 0x7f {
        seq![value as u8]
    } else if value <= 0xff {
        seq![UINT8, value as u8]
    } else if value <= 0xffff {
        seq![UINT16] + be_bytes(value as nat, 2)
    } else if value <= 0xffff_ffff {
        seq![UINT32] + be_bytes(value as nat, 4)
    } else {
        seq![UINT64] + be_bytes(value as nat, 8)
    }
}

/// The encoding of a signed integer: the first form that holds the value,
/// trying at each width the signed form before the unsigned one.
pub open spec fn encode_signed(value: i64) -> Seq<u8> {
    if -32 <= value <= 0x7f {
        seq![to_unsigned(value as int, 1) as u8]
    } else if -0x80 <= value <= 0x7f {
        seq![INT8, to_unsigned(value as int, 1) as u8]
    } else if 0 <= value <= 0xff {
        seq![UINT8, value as u8]
    } else if -0x8000 <= value <= 0x7fff {
        seq![INT16] + be_bytes(to_unsigned(value as int, 2), 2)
    } else if 0 <= value <= 0xffff {
        seq![UINT16] + be_bytes(value as nat, 2)
    } else if -0x8000_0000 <= value <= 0x7fff_ffff {
        seq![INT32] + be_bytes(to_unsigned(value as int, 4), 4)
    } else if 0 <= value <= 0xffff_ffff {
        seq![UINT32] + be_bytes(value as nat, 4)
    } else {
        seq![INT64] + be_bytes(to_unsigned(value as int, 8), 8)
    }
}

/// The encoding of a 32-bit float, given by its bit pattern.
pub open spec fn encode_f32(bits: u32) -> Seq<u8> {
    seq![FLOAT32] + be_bytes(bits as nat, 4)
}

/// The encoding of a 64-bit float, given by its bit pattern.
pub open spec fn encode_f64(bits: u64) -> Seq<u8> {
    seq![FLOAT64] + be_bytes(bits as nat, 8)
}

/// What precedes the bytes of a string of `len` bytes, `len <= max_len()`.
pub open spec fn str_header(len: nat) -> Seq<u8> {
    if len <= 31 {
        seq![(FIXSTR_MASK + len) as u8]
    } else if len <= 0xff {
        seq![STR8, len as u8]
    } else if len <= 0xffff {
        seq![STR16] + be_bytes(len, 2)
    } else {
        seq![STR32] + be_bytes(len, 4)
    }
}

/// What precedes a byte blob of `len` bytes, `len <= max_len()`.
pub open spec fn bin_header(len: nat) -> Seq<u8> {
    if len <= 0xff {
        seq![BIN8, len as u8]
    } else if len <= 0xffff {
        seq![BIN16] + be_bytes(len, 2)
    } else {
        seq![BIN32] + be_bytes(len, 4)
    }
}

/// What precedes the elements of an array of `len` elements,
/// `len <= max_len()`.
pub open spec fn array_header(len: nat) -> Seq<u8> {
    if len <= 15 {
        seq![(FIXARRAY_MASK + len) as u8]
    } else if len <= 0xffff {
        seq![ARRAY16] + be_bytes(len, 2)
    } else {
        seq![ARRAY32] + be_bytes(len, 4)
    }
}

/// What precedes the keys and values of a map of `len` pairs,
/// `len <= max_len()`.
pub open spec fn map_header(len: nat) -> Seq<u8> {
    if len <= 15 {
        seq![(FIXMAP_MASK + len) as u8]
    } else if len <= 0xffff {
        seq![MAP16] + be_bytes(len, 2)
    } else {
        seq![MAP32] + be_bytes(len, 4)
    }
}

/// What precedes the data of an extension value of `len` bytes and type
/// `ty`, `len <= max_len()`: the tag, the length unless the tag fixes it,
/// and the type.
pub open spec fn ext_header(len: nat, ty: i8) -> Seq<u8> {
    let ty_byte = to_unsigned(ty as int, 1) as u8;
    if len == 1 {
        seq![FIXEXT1, ty_byte]
    } else if len == 2 {
        seq![FIXEXT2, ty_byte]
    } else if len == 4 {
        seq![FIXEXT4, ty_byte]
    } else if len == 8 {
        seq![FIXEXT8, ty_byte]
    } else if len == 16 {
        seq![FIXEXT16, ty_byte]
    } else if len <= 0xff {
        seq![EXT8, len as u8, ty_byte]
    } else if len <= 0xffff {
        (seq![EXT16] + be_bytes(len, 2)).push(ty_byte)
    } else {
        (seq![EXT32] + be_bytes(len, 4)).push(ty_byte)
    }
}

/// The encoding of a string: its header, then its UTF-8 bytes.
pub open spec fn encode_str(chars: Seq<char>) -> Seq<u8> {
    str_header(encode_utf8(chars).len()) + encode_utf8(chars)
}

/// The encoding of a byte blob: its header, then the bytes.
pub open spec fn encode_bin(bytes: Seq<u8>) -> Seq<u8> {
    bin_header(bytes.len()) + bytes
}

/// The encoding of an extension value: its header, then the data.
pub open spec fn encode_ext(ty: i8, data: Seq<u8>) -> Seq<u8> {
    ext_header(data.len(), ty) + data
}

/// What opens a variant of a tagged union: the header of a sequence of
/// two elements, and the index of the variant as the first of them. The
/// payload follows as the second.
pub open spec fn variant_header(index: nat) -> Seq<u8> {
    seq![0x92u8] + encode_unsigned(index as u64)
}

/// Whether every length and count in `value` fits the widest size tier,
/// so that `value` has an encoding.
pub open spec fn encodable(value: Value) -> bool
    decreases value,
{
    match value {
        Value::Bin(bytes) => bytes.len() <= max_len(),
        Value::Str(chars) => encode_utf8(chars).len() <= max_len(),
        Value::Array(items) => items.len() <= max_len() && forall|i: int|
            0 <= i < items.len() ==> encodable(#[trigger] items[i]),
        Value::Dict(pairs) => pairs.len() <= max_len() && forall|i: int|
            0 <= i < pairs.len() ==> encodable((#[trigger] pairs[i]).0) && encodable(pairs[i].1),
        Value::Ext(_, data) => data.len() <= max_len(),
        _ => true,
    }
}

/// The encodings of the bytes `data`, each as an unsigned integer, one
/// after the other.
pub open spec fn encode_each_byte(data: Seq<u8>) -> Seq<u8>
    decreases data.len(),
{
    if data.len() == 0 {
        Seq::empty()
    } else {
        encode_each_byte(data.drop_last()) + encode_unsigned(data.last() as u64)
    }
}

/// The encoding of an extension value as an ordinary structure of two
/// named fields: `type`, a signed integer, and `data`, the sequence of
/// the bytes.
pub open spec fn encode_ext_fields(ty: i8, data: Seq<u8>) -> Seq<u8> {
    map_header(2) + encode_str("type"@) + encode_signed(ty as i64) + encode_str("data"@)
        + array_header(data.len()) + encode_each_byte(data)
}

/// The encoding of a value. Extension values are written in the format's
/// own extension form where `raw_ext` holds, and as a structure of two
/// fields where it does not.
pub open spec fn encode_value(value: Value, raw_ext: bool) -> Seq<u8>
    decreases value,
{
    match value {
        Value::Nil => encode_nil(),
        Value::False => encode_bool(false),
        Value::True => encode_bool(true),
        Value::Int(i) => encode_signed(i),
        Value::UInt(u) => encode_unsigned(u),
        Value::F32(bits) => encode_f32(bits),
        Value::F64(bits) => encode_f64(bits),
        Value::Bin(bytes) => encode_bin(bytes),
        Value::Str(chars) => encode_str(chars),
        Value::Array(items) => array_header(items.len()) + encode_items(items, raw_ext),
        Value::Dict(pairs) => map_header(pairs.len()) + encode_pairs(pairs, raw_ext),
        Value::Ext(ty, data) => if raw_ext {
            encode_ext(ty, data)
        } else {
            encode_ext_fields(ty, data)
        },
    }
}

/// The encodings of `items`, one after the other.
pub open spec fn encode_items(items: Seq<Value>, raw_ext: bool) -> Seq<u8>
    decreases items,
{
    if items.len() == 0 {
        Seq::empty()
    } else {
        encode_items(items.drop_last(), raw_ext) + encode_value(items.last(), raw_ext)
    }
}

/// The encodings of `pairs`, one after the other, each key before its
/// value.
pub open spec fn encode_pairs(pairs: Seq<(Value, Value)>, raw_ext: bool) -> Seq<u8>
    decreases pairs,
{
    if pairs.len() == 0 {
        Seq::empty()
    } else {
        encode_pairs(pairs.drop_last(), raw_ext) + encode_value(pairs.last().0, raw_ext)
            + encode_value(pairs.last().1, raw_ext)
    }
}

/// What the head of an encoded value says: a whole scalar, or the kind and
/// size of what follows.
pub enum TokenView {
    Unit,
    Bool(bool),
    U8(u8),
    U16(u16),
    U32(u32),
    U64(u64),
    I8(i8),
    I16(i16),
    I32(i32),
    I64(i64),
    F32(u32),
    F64(u64),
    Str(Seq<char>),
    Bytes(Seq<u8>),
    /// An array; that many elements follow.
    Array(nat),
    /// A map; that many keys, each with its value, follow.
    Dict(nat),
    Ext(i8, Seq<u8>),
}

/// The families that the tag bytes fall into.
pub enum Kind {
    PosFixint,
    NegFixint,
    FixMap,
    FixArray,
    FixStr,
    Nil,
    Reserved,
    False,
    True,
    Bin,
    Ext,
    Float,
    UInt,
    Int,
    FixExt,
    Str,
    Array,
    Dict,
}

/// The family of a tag byte. Every byte has exactly one.
pub open spec fn tag_kind(tag: u8) -> Kind {
    if tag <= 0x7f {
        Kind::PosFixint
    } else if tag <= 0x8f {
        Kind::FixMap
    } else if tag <= 0x9f {
        Kind::FixArray
    } else if tag <= 0xbf {
        Kind::FixStr
    } else if tag == NIL {
        Kind::Nil
    } else if tag == RESERVED {
        Kind::Reserved
    } else if tag == FALSE {
        Kind::False
    } else if tag == TRUE {
        Kind::True
    } else if tag <= BIN32 {
        Kind::Bin
    } else if tag <= EXT32 {
        Kind::Ext
    } else if tag <= FLOAT64 {
        Kind::Float
    } else if tag <= UINT64 {
        Kind::UInt
    } else if tag <= INT64 {
        Kind::Int
    } else if tag <= FIXEXT16 {
        Kind::FixExt
    } else if tag <= STR32 {
        Kind::Str
    } else if tag <= ARRAY32 {
        Kind::Array
    } else if tag <= MAP32 {
        Kind::Dict
    } else {
        Kind::NegFixint
    }
}

/// How many bytes of length or value follow a tag byte at once.
pub open spec fn tag_width(tag: u8) -> nat {
    if tag == BIN8 || tag == EXT8 || tag == UINT8 || tag == INT8 || tag == STR8 {
        1
    } else if tag == BIN16 || tag == EXT16 || tag == UINT16 || tag == INT16 || tag == STR16 || tag
        == ARRAY16 || tag == MAP16 {
        2
    } else if tag == BIN32 || tag == EXT32 || tag == FLOAT32 || tag == UINT32 || tag == INT32 || tag
        == STR32 || tag == ARRAY32 || tag == MAP32 {
        4
    } else if tag == FLOAT64 || tag == UINT64 || tag == INT64 {
        8
    } else {
        0
    }
}

/// The data length that a fixed-size extension tag stands for.
pub open spec fn fixext_len(tag: u8) -> nat {
    if tag == FIXEXT1 {
        1
    } else if tag == FIXEXT2 {
        2
    } else if tag == FIXEXT4 {
        4
    } else if tag == FIXEXT8 {
        8
    } else {
        16
    }
}

/// A byte blob of `len` bytes at the head of `bytes`, and what follows it.
pub open spec fn parse_blob(bytes: Seq<u8>, len: nat) -> Result<(TokenView, Seq<u8>), Reason> {
    if bytes.len() < len {
        Err(Reason::EndOfStream)
    } else {
        Ok((TokenView::Bytes(bytes.take(len as int)), bytes.skip(len as int)))
    }
}

/// A string of `len` bytes at the head of `bytes`, and what follows it.
pub open spec fn parse_text(bytes: Seq<u8>, len: nat) -> Result<(TokenView, Seq<u8>), Reason> {
    if bytes.len() < len {
        Err(Reason::EndOfStream)
    } else if !valid_utf8(bytes.take(len as int)) {
        Err(Reason::UTF8Error)
    } else {
        Ok((TokenView::Str(decode_utf8(bytes.take(len as int))), bytes.skip(len as int)))
    }
}

/// An extension value at the head of `bytes`: its type byte, then `len`
/// bytes of data; and what follows it.
pub open spec fn parse_ext(bytes: Seq<u8>, len: nat) -> Result<(TokenView, Seq<u8>), Reason> {
    if bytes.len() < 1 + len {
        Err(Reason::EndOfStream)
    } else {
        Ok(
            (
                TokenView::Ext(
                    to_signed(bytes[0] as nat, 1) as i8,
                    bytes.skip(1).take(len as int),
                ),
                bytes.skip(1).skip(len as int),
            ),
        )
    }
}

/// An unsigned integer of `width` bytes.
pub open spec fn uint_token(width: nat, value: nat) -> TokenView {
    if width == 1 {
        TokenView::U8(value as u8)
    } else if width == 2 {
        TokenView::U16(value as u16)
    } else if width == 4 {
        TokenView::U32(value as u32)
    } else {
        TokenView::U64(value as u64)
    }
}

/// A signed integer of `width` bytes.
pub open spec fn int_token(width: nat, value: int) -> TokenView {
    if width == 1 {
        TokenView::I8(value as i8)
    } else if width == 2 {
        TokenView::I16(value as i16)
    } else if width == 4 {
        TokenView::I32(value as i32)
    } else {
        TokenView::I64(value as i64)
    }
}

/// What the tag byte `tag` and the bytes after it denote, and the bytes
/// that follow; or why they denote nothing.
pub open spec fn parse_head(tag: u8, bytes: Seq<u8>) -> Result<(TokenView, Seq<u8>), Reason> {
    let width = tag_width(tag);
    match tag_kind(tag) {
        Kind::PosFixint => Ok((TokenView::U8(tag), bytes)),
        Kind::NegFixint => Ok((TokenView::I8(to_signed(tag as nat, 1) as i8), bytes)),
        Kind::FixMap => Ok((TokenView::Dict((tag - FIXMAP_MASK) as nat), bytes)),
        Kind::FixArray => Ok((TokenView::Array((tag - FIXARRAY_MASK) as nat), bytes)),
        Kind::FixStr => parse_text(bytes, (tag - FIXSTR_MASK) as nat),
        Kind::Nil => Ok((TokenView::Unit, bytes)),
        Kind::Reserved => Err(Reason::BadType),
        Kind::False => Ok((TokenView::Bool(false), bytes)),
        Kind::True => Ok((TokenView::Bool(true), bytes)),
        Kind::FixExt => parse_ext(bytes, fixext_len(tag)),
        kind => if bytes.len() < width {
            Err(Reason::EndOfStream)
        } else {
            let field = be_value(bytes.take(width as int));
            let rest = bytes.skip(width as int);
            match kind {
                Kind::UInt => Ok((uint_token(width, field), rest)),
                Kind::Int => Ok((int_token(width, to_signed(field, width)), rest)),
                Kind::Float => if width == 4 {
                    Ok((TokenView::F32(field as u32), rest))
                } else {
                    Ok((TokenView::F64(field as u64), rest))
                },
                Kind::Bin => parse_blob(rest, field),
                Kind::Str => parse_text(rest, field),
                Kind::Ext => parse_ext(rest, field),
                Kind::Array => Ok((TokenView::Array(field), rest)),
                _ => Ok((TokenView::Dict(field), rest)),
            }
        },
    }
}

/// One tag byte denotes nothing whatever follows it; every other one
/// denotes something, given bytes enough of the right kind.
pub proof fn lemma_unassigned_tag(tag: u8, bytes: Seq<u8>)
    ensures
        parse_head(tag, bytes) == Err::<(TokenView, Seq<u8>), Reason>(Reason::BadType) <==> tag
            == RESERVED,
{
}

/// What the head of `bytes` denotes, and the bytes that follow it.
pub open spec fn parse_token(bytes: Seq<u8>) -> Result<(TokenView, Seq<u8>), Reason> {
    if bytes.len() == 0 {
        Err(Reason::EndOfStream)
    } else {
        parse_head(bytes[0], bytes.skip(1))
    }
}

/// The integer that a token carries, if it carries one.
pub open spec fn token_int(token: TokenView) -> Option<int> {
    match token {
        TokenView::U8(v) => Some(v as int),
        TokenView::U16(v) => Some(v as int),
        TokenView::U32(v) => Some(v as int),
        TokenView::U64(v) => Some(v as int),
        TokenView::I8(v) => Some(v as int),
        TokenView::I16(v) => Some(v as int),
        TokenView::I32(v) => Some(v as int),
        TokenView::I64(v) => Some(v as int),
        _ => None,
    }
}

/// What opens a variant at the head of `bytes`, where the tagged union
/// has `variants` variants: the index of the variant, and the bytes that
/// follow it, which start with the payload.
pub open spec fn parse_variant_index(bytes: Seq<u8>, variants: nat) -> Result<
    (nat, Seq<u8>),
    Reason,
> {
    match parse_token(bytes) {
        Err(reason) => Err(reason),
        Ok((TokenView::Array(len), rest)) => if len != 2 {
            Err(Reason::BadLength)
        } else {
            match parse_token(rest) {
                Err(reason) => Err(reason),
                Ok((token, after)) => match token_int(token) {
                    None => Err(Reason::BadType),
                    Some(index) => if 0 <= index < variants {
                        Ok((index as nat, after))
                    } else {
                        Err(Reason::BadVariant)
                    },
                },
            }
        },
        Ok(_) => Err(Reason::BadType),
    }
}

/// The value that a token stands for by itself. The two tokens that only
/// open a container stand for the empty container.
pub open spec fn token_value(token: TokenView) -> Value {
    match token {
        TokenView::Unit => Value::Nil,
        TokenView::Bool(b) => if b {
            Value::True
        } else {
            Value::False
        },
        TokenView::U8(v) => Value::UInt(v as u64),
        TokenView::U16(v) => Value::UInt(v as u64),
        TokenView::U32(v) => Value::UInt(v as u64),
        TokenView::U64(v) => Value::UInt(v),
        TokenView::I8(v) => Value::Int(v as i64),
        TokenView::I16(v) => Value::Int(v as i64),
        TokenView::I32(v) => Value::Int(v as i64),
        TokenView::I64(v) => Value::Int(v),
        TokenView::F32(bits) => Value::F32(bits),
        TokenView::F64(bits) => Value::F64(bits),
        TokenView::Str(chars) => Value::Str(chars),
        TokenView::Bytes(bytes) => Value::Bin(bytes),
        TokenView::Array(_) => Value::Array(Seq::empty()),
        TokenView::Dict(_) => Value::Dict(Seq::empty()),
        TokenView::Ext(ty, data) => Value::Ext(ty, data),
    }
}

/// The value at the head of `bytes`, containers with all that they hold,
/// and the bytes that follow it; or why there is none.
pub open spec fn parse_value(bytes: Seq<u8>) -> Result<(Value, Seq<u8>), Reason>
    decreases bytes.len(), 0nat,
    via parse_value_decreases
{
    match parse_token(bytes) {
        Err(reason) => Err(reason),
        Ok((token, rest)) => match token {
            TokenView::Array(count) => match parse_items(rest, count) {
                Ok((items, after)) => Ok((Value::Array(items), after)),
                Err(reason) => Err(reason),
            },
            TokenView::Dict(count) => match parse_pairs(rest, count) {
                Ok((pairs, after)) => Ok((Value::Dict(pairs), after)),
                Err(reason) => Err(reason),
            },
            _ => Ok((token_value(token), rest)),
        },
    }
}

/// The `count` values at the head of `bytes`, and the bytes that follow
/// them. (A value takes at least one byte, so the comparison of lengths
/// never fails; it is there to show that the definition is well founded.)
pub open spec fn parse_items(bytes: Seq<u8>, count: nat) -> Result<(Seq<Value>, Seq<u8>), Reason>
    decreases bytes.len(), count + 1,
{
    if count == 0 {
        Ok((Seq::empty(), bytes))
    } else {
        match parse_value(bytes) {
            Err(reason) => Err(reason),
            Ok((first, rest)) => if rest.len() < bytes.len() {
                match parse_items(rest, (count - 1) as nat) {
                    Ok((others, after)) => Ok((seq![first] + others, after)),
                    Err(reason) => Err(reason),
                }
            } else {
                Err(Reason::EndOfStream)
            },
        }
    }
}

/// The `count` keys, each with its value, at the head of `bytes`, and the
/// bytes that follow them. (The comparisons of lengths never fail, as in
/// [`parse_items`].)
pub open spec fn parse_pairs(bytes: Seq<u8>, count: nat) -> Result<
    (Seq<(Value, Value)>, Seq<u8>),
    Reason,
>
    decreases bytes.len(), count + 1,
{
    if count == 0 {
        Ok((Seq::empty(), bytes))
    } else {
        match parse_value(bytes) {
            Err(reason) => Err(reason),
            Ok((key, rest)) => if rest.len() < bytes.len() {
                match parse_value(rest) {
                    Err(reason) => Err(reason),
                    Ok((value, rest2)) => if rest2.len() < rest.len() {
                        match parse_pairs(rest2, (count - 1) as nat) {
                            Ok((others, after)) => Ok((seq![(key, value)] + others, after)),
                            Err(reason) => Err(reason),
                        }
                    } else {
                        Err(Reason::EndOfStream)
                    },
                }
            } else {
                Err(Reason::EndOfStream)
            },
        }
    }
}

#[via_fn]
proof fn parse_value_decreases(bytes: Seq<u8>) {
    lemma_token_takes_bytes(bytes);
}

/// A token takes at least its tag byte, and what follows it is the end of
/// what it was read from.
pub proof fn lemma_token_takes_bytes(bytes: Seq<u8>)
    ensures
        parse_token(bytes) matches Ok((_, rest)) ==> rest.len() < bytes.len() && rest
            == bytes.skip(bytes.len() - rest.len()),
{
    if let Ok((_, rest)) = parse_token(bytes) {
        let tag = bytes[0];
        let body = bytes.skip(1);
        let width = tag_width(tag);
        assert(body.skip(0) =~= body);
        if body.len() >= width {
            let field = be_value(body.take(width as int));
            let tail = body.skip(width as int);
            assert(tail =~= bytes.skip(1 + width as int));
            if tail.len() >= field {
                assert(tail.skip(field as int) =~= bytes.skip(1 + width as int + field as int));
            }
            if tail.len() >= 1 + field {
                assert(tail.skip(1).skip(field as int) =~= bytes.skip(
                    1 + width as int + 1 + field as int,
                ));
            }
        }
        let fix = (tag - FIXSTR_MASK) as nat;
        if tag_kind(tag) is FixStr && body.len() >= fix {
            assert(body.skip(fix as int) =~= bytes.skip(1 + fix as int));
        }
        let ext = fixext_len(tag);
        if tag_kind(tag) is FixExt && body.len() >= 1 + ext {
            assert(body.skip(1).skip(ext as int) =~= bytes.skip(1 + 1 + ext as int));
        }
    }
}

/// A value takes at least one byte, and what follows it is the end of
/// what it was read from.
pub proof fn lemma_value_takes_bytes(bytes: Seq<u8>)
    ensures
        parse_value(bytes) matches Ok((_, rest)) ==> rest.len() < bytes.len() && rest
            == bytes.skip(bytes.len() - rest.len()),
    decreases bytes.len(), 0nat,
{
    lemma_token_takes_bytes(bytes);
    if let Ok((token, rest)) = parse_token(bytes) {
        match token {
            TokenView::Array(count) => {
                lemma_items_take_bytes(rest, count);
                if let Ok((_, after)) = parse_items(rest, count) {
                    assert(after =~= bytes.skip(bytes.len() - after.len()));
                }
            },
            TokenView::Dict(count) => {
                lemma_pairs_take_bytes(rest, count);
                if let Ok((_, after)) = parse_pairs(rest, count) {
                    assert(after =~= bytes.skip(bytes.len() - after.len()));
                }
            },
            _ => {},
        }
    }
}

/// Values in a row take no bytes back.
pub proof fn lemma_items_take_bytes(bytes: Seq<u8>, count: nat)
    ensures
        parse_items(bytes, count) matches Ok((items, rest)) ==> items.len() == count && rest.len()
            <= bytes.len() && rest == bytes.skip(bytes.len() - rest.len()),
    decreases bytes.len(), count + 1,
{
    if count == 0 {
        assert(bytes.skip(0) =~= bytes);
    } else {
        lemma_value_takes_bytes(bytes);
        if let Ok((_, rest)) = parse_value(bytes) {
            lemma_items_take_bytes(rest, (count - 1) as nat);
            if let Ok((_, after)) = parse_items(rest, (count - 1) as nat) {
                assert(after =~= bytes.skip(bytes.len() - after.len()));
            }
        }
    }
}

/// Keys and values in a row take no bytes back.
pub proof fn lemma_pairs_take_bytes(bytes: Seq<u8>, count: nat)
    ensures
        parse_pairs(bytes, count) matches Ok((pairs, rest)) ==> pairs.len() == count && rest.len()
            <= bytes.len() && rest == bytes.skip(bytes.len() - rest.len()),
    decreases bytes.len(), count + 1,
{
    if count == 0 {
        assert(bytes.skip(0) =~= bytes);
    } else {
        lemma_value_takes_bytes(bytes);
        if let Ok((_, rest)) = parse_value(bytes) {
            lemma_value_takes_bytes(rest);
            if let Ok((_, rest2)) = parse_value(rest) {
                assert(rest2 =~= bytes.skip(bytes.len() - rest2.len()));
                lemma_pairs_take_bytes(rest2, (count - 1) as nat);
                if let Ok((_, after)) = parse_pairs(rest2, (count - 1) as nat) {
                    assert(after =~= bytes.skip(bytes.len() - after.len()));
                }
            }
        }
    }
}

/// What starts a start of `c` starts `c`.
pub proof fn lemma_prefix_chain(a: Seq<u8>, b: Seq<u8>, c: Seq<u8>)
    requires
        a.is_prefix_of(b),
        b.is_prefix_of(c),
    ensures
        a.is_prefix_of(c),
{
    assert(a =~= c.subrange(0, a.len() as int));
}

} // verus!
