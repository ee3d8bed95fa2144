//! What is written is read back: the decoder undoes the encoder.

use crate::defs::{
    ARRAY16, ARRAY32, BIN16, BIN32, EXT16, EXT32, FLOAT32, FLOAT64, INT16, INT32, INT64, MAP16,
    MAP32, STR16, STR32, UINT16, UINT32, UINT64,
};
use crate::endian::{
    be_bytes, be_value, lemma_be_bytes_len, lemma_be_value_of_bytes, lemma_pow256_values, pow256,
    to_signed, to_unsigned,
};
use crate::error::Reason;
use crate::generic::Value;
use crate::wire::{
    array_header, bin_header, encodable, encode_bin, encode_bool, encode_ext, encode_f32,
    encode_f64, encode_items, encode_nil, encode_pairs, encode_signed, encode_str, encode_unsigned,
    encode_value, map_header, max_len, parse_blob, parse_items, parse_pairs, parse_text,
    parse_token, parse_value, str_header, token_int, token_value, TokenView,
};
use vstd::prelude::*;
use vstd::utf8::*;

verus! {

/// Whether the encoder writes the signed integer `value` in a form that
/// the decoder reads as an unsigned one: the positive single byte, or one
/// of the unsigned forms, which the encoder takes where the signed form of
/// the same width is too narrow.
pub open spec fn written_unsigned(value: i64) -> bool {
    ||| 0 <= value <= 0xff
    ||| 0x8000 <= value <= 0xffff
    ||| 0x8000_0000 <= value <= 0xffff_ffff
}

/// The value that comes back for `value`: the same number in every place,
/// but that a signed integer which was written in an unsigned form comes
/// back as an unsigned integer.
pub open spec fn read_back(value: Value) -> Value
    decreases value,
{
    match value {
        Value::Int(i) => if written_unsigned(i) {
            Value::UInt(i as u64)
        } else {
            Value::Int(i)
        },
        Value::Array(items) => Value::Array(read_back_items(items)),
        Value::Dict(pairs) => Value::Dict(read_back_pairs(pairs)),
        other => other,
    }
}

/// [`read_back`] of every value in a row.
pub open spec fn read_back_items(items: Seq<Value>) -> Seq<Value>
    decreases items,
{
    Seq::new(
        items.len(),
        |i: int|
            if 0 <= i < items.len() {
                read_back(items[i])
            } else {
                Value::Nil
            },
    )
}

/// [`read_back`] of every key and every value in a row.
pub open spec fn read_back_pairs(pairs: Seq<(Value, Value)>) -> Seq<(Value, Value)>
    decreases pairs,
{
    Seq::new(
        pairs.len(),
        |i: int|
            if 0 <= i < pairs.len() {
                (read_back(pairs[i].0), read_back(pairs[i].1))
            } else {
                (Value::Nil, Value::Nil)
            },
    )
}

/// The parts of a tag byte, a field of `width` bytes and what follows.
proof fn lemma_tag_and_field(tag: u8, n: nat, width: nat, rest: Seq<u8>)
    requires
        n < pow256(width),
    ensures
        ({
            let bytes = seq![tag] + be_bytes(n, width) + rest;
            &&& bytes.len() == 1 + width + rest.len()
            &&& bytes[0] == tag
            &&& be_value(bytes.skip(1).take(width as int)) == n
            &&& bytes.skip(1).skip(width as int) == rest
        }),
{
    let bytes = seq![tag] + be_bytes(n, width) + rest;
    lemma_be_bytes_len(n, width);
    lemma_be_value_of_bytes(n, width);
    assert(bytes.skip(1).take(width as int) =~= be_bytes(n, width));
    assert(bytes.skip(1).skip(width as int) =~= rest);
}

/// An unsigned integer is read back as it was written.
pub proof fn lemma_unsigned_round_trip(value: u64, rest: Seq<u8>)
    ensures
        parse_token(encode_unsigned(value) + rest) matches Ok((token, after)) && token_value(token)
            == Value::UInt(value) && token_int(token) == Some(value as int) && after == rest,
{
    lemma_pow256_values();
    reveal_with_fuel(be_value, 2);
    let bytes = encode_unsigned(value) + rest;
    if value <= 0x7f {
        assert(bytes.skip(1) =~= rest);
    } else if value <= 0xff {
        assert(bytes.skip(1).take(1) =~= seq![value as u8]);
        assert(bytes.skip(1).skip(1) =~= rest);
    } else if value <= 0xffff {
        lemma_tag_and_field(UINT16, value as nat, 2, rest);
    } else if value <= 0xffff_ffff {
        lemma_tag_and_field(UINT32, value as nat, 4, rest);
    } else {
        lemma_tag_and_field(UINT64, value as nat, 8, rest);
    }
}

/// A signed integer is read back with the value it was written with:
/// as an unsigned token where it is not negative, as a signed one where
/// it is.
pub proof fn lemma_signed_round_trip(value: i64, rest: Seq<u8>)
    ensures
        parse_token(encode_signed(value) + rest) matches Ok((token, after)) && token_value(token)
            == read_back(Value::Int(value)) && token_int(token) == Some(value as int) && after
            == rest,
{
    lemma_pow256_values();
    reveal_with_fuel(be_value, 2);
    let bytes = encode_signed(value) + rest;
    if -32 <= value <= 0x7f {
        assert(bytes.skip(1) =~= rest);
    } else if -0x80 <= value <= 0x7f {
        assert(bytes.skip(1).take(1) =~= seq![to_unsigned(value as int, 1) as u8]);
        assert(bytes.skip(1).skip(1) =~= rest);
    } else if 0 <= value <= 0xff {
        assert(bytes.skip(1).take(1) =~= seq![value as u8]);
        assert(bytes.skip(1).skip(1) =~= rest);
    } else if -0x8000 <= value <= 0x7fff {
        lemma_tag_and_field(INT16, to_unsigned(value as int, 2), 2, rest);
    } else if 0 <= value <= 0xffff {
        lemma_tag_and_field(UINT16, value as nat, 2, rest);
    } else if -0x8000_0000 <= value <= 0x7fff_ffff {
        lemma_tag_and_field(INT32, to_unsigned(value as int, 4), 4, rest);
    } else if 0 <= value <= 0xffff_ffff {
        lemma_tag_and_field(UINT32, value as nat, 4, rest);
    } else {
        lemma_tag_and_field(INT64, to_unsigned(value as int, 8), 8, rest);
    }
}

/// The unit value, a boolean and a float are read back as they were
/// written.
pub proof fn lemma_small_round_trip(rest: Seq<u8>)
    ensures
        parse_token(encode_nil() + rest) == Ok::<(TokenView, Seq<u8>), Reason>(
            (TokenView::Unit, rest),
        ),
        forall|b: bool|
            parse_token(#[trigger] encode_bool(b) + rest) == Ok::<(TokenView, Seq<u8>), Reason>(
                (TokenView::Bool(b), rest),
            ),
        forall|bits: u32|
            parse_token(#[trigger] encode_f32(bits) + rest) == Ok::<(TokenView, Seq<u8>), Reason>(
                (TokenView::F32(bits), rest),
            ),
        forall|bits: u64|
            parse_token(#[trigger] encode_f64(bits) + rest) == Ok::<(TokenView, Seq<u8>), Reason>(
                (TokenView::F64(bits), rest),
            ),
{
    lemma_pow256_values();
    assert((encode_nil() + rest).skip(1) =~= rest);
    assert forall|b: bool|
        parse_token(#[trigger] encode_bool(b) + rest) == Ok::<(TokenView, Seq<u8>), Reason>(
            (TokenView::Bool(b), rest),
        ) by {
        assert((encode_bool(b) + rest).skip(1) =~= rest);
    }
    assert forall|bits: u32|
        parse_token(#[trigger] encode_f32(bits) + rest) == Ok::<(TokenView, Seq<u8>), Reason>(
            (TokenView::F32(bits), rest),
        ) by {
        lemma_tag_and_field(FLOAT32, bits as nat, 4, rest);
    }
    assert forall|bits: u64|
        parse_token(#[trigger] encode_f64(bits) + rest) == Ok::<(TokenView, Seq<u8>), Reason>(
            (TokenView::F64(bits), rest),
        ) by {
        lemma_tag_and_field(FLOAT64, bits as nat, 8, rest);
    }
}

/// After the header of a string, the decoder expects as many bytes as
/// the header was written for.
proof fn lemma_str_header(len: nat, rest: Seq<u8>)
    requires
        len <= max_len(),
    ensures
        parse_token(str_header(len) + rest) == parse_text(rest, len),
{
    lemma_pow256_values();
    reveal_with_fuel(be_value, 2);
    let bytes = str_header(len) + rest;
    if len <= 31 {
        assert(bytes.skip(1) =~= rest);
    } else if len <= 0xff {
        assert(bytes.skip(1).take(1) =~= seq![len as u8]);
        assert(bytes.skip(1).skip(1) =~= rest);
    } else if len <= 0xffff {
        lemma_tag_and_field(STR16, len, 2, rest);
    } else {
        lemma_tag_and_field(STR32, len, 4, rest);
    }
}

/// After the header of a byte blob, the decoder expects as many bytes as
/// the header was written for.
proof fn lemma_bin_header(len: nat, rest: Seq<u8>)
    requires
        len <= max_len(),
    ensures
        parse_token(bin_header(len) + rest) == parse_blob(rest, len),
{
    lemma_pow256_values();
    reveal_with_fuel(be_value, 2);
    let bytes = bin_header(len) + rest;
    if len <= 0xff {
        assert(bytes.skip(1).take(1) =~= seq![len as u8]);
        assert(bytes.skip(1).skip(1) =~= rest);
    } else if len <= 0xffff {
        lemma_tag_and_field(BIN16, len, 2, rest);
    } else {
        lemma_tag_and_field(BIN32, len, 4, rest);
    }
}

/// The header of an array is read back as the opening of an array of
/// that many elements.
pub proof fn lemma_array_header(len: nat, rest: Seq<u8>)
    requires
        len <= max_len(),
    ensures
        parse_token(array_header(len) + rest) == Ok::<(TokenView, Seq<u8>), Reason>(
            (TokenView::Array(len), rest),
        ),
{
    lemma_pow256_values();
    let bytes = array_header(len) + rest;
    if len <= 15 {
        assert(bytes.skip(1) =~= rest);
    } else if len <= 0xffff {
        lemma_tag_and_field(ARRAY16, len, 2, rest);
    } else {
        lemma_tag_and_field(ARRAY32, len, 4, rest);
    }
}

/// The header of a map is read back as the opening of a map of that many
/// pairs.
pub proof fn lemma_map_header(len: nat, rest: Seq<u8>)
    requires
        len <= max_len(),
    ensures
        parse_token(map_header(len) + rest) == Ok::<(TokenView, Seq<u8>), Reason>(
            (TokenView::Dict(len), rest),
        ),
{
    lemma_pow256_values();
    let bytes = map_header(len) + rest;
    if len <= 15 {
        assert(bytes.skip(1) =~= rest);
    } else if len <= 0xffff {
        lemma_tag_and_field(MAP16, len, 2, rest);
    } else {
        lemma_tag_and_field(MAP32, len, 4, rest);
    }
}

/// A string is read back as it was written.
pub proof fn lemma_str_round_trip(chars: Seq<char>, rest: Seq<u8>)
    requires
        encode_utf8(chars).len() <= max_len(),
    ensures
        parse_token(encode_str(chars) + rest) == Ok::<(TokenView, Seq<u8>), Reason>(
            (TokenView::Str(chars), rest),
        ),
{
    let raw = encode_utf8(chars);
    lemma_str_header(raw.len(), raw + rest);
    assert(encode_str(chars) + rest =~= str_header(raw.len()) + (raw + rest));
    assert((raw + rest).take(raw.len() as int) =~= raw);
    assert((raw + rest).skip(raw.len() as int) =~= rest);
    encode_utf8_valid_utf8(chars);
    encode_utf8_decode_utf8(chars);
}

/// A byte blob is read back as it was written.
pub proof fn lemma_bin_round_trip(data: Seq<u8>, rest: Seq<u8>)
    requires
        data.len() <= max_len(),
    ensures
        parse_token(encode_bin(data) + rest) == Ok::<(TokenView, Seq<u8>), Reason>(
            (TokenView::Bytes(data), rest),
        ),
{
    lemma_bin_header(data.len(), data + rest);
    assert(encode_bin(data) + rest =~= bin_header(data.len()) + (data + rest));
    assert((data + rest).take(data.len() as int) =~= data);
    assert((data + rest).skip(data.len() as int) =~= rest);
}

/// An extension value is read back as it was written.
pub proof fn lemma_ext_round_trip(ty: i8, data: Seq<u8>, rest: Seq<u8>)
    requires
        data.len() <= max_len(),
    ensures
        parse_token(encode_ext(ty, data) + rest) == Ok::<(TokenView, Seq<u8>), Reason>(
            (TokenView::Ext(ty, data), rest),
        ),
{
    lemma_pow256_values();
    reveal_with_fuel(be_value, 2);
    let len = data.len();
    let ty_byte = to_unsigned(ty as int, 1) as u8;
    let tail = seq![ty_byte] + data + rest;
    let bytes = encode_ext(ty, data) + rest;
    assert(tail.skip(1).take(len as int) =~= data);
    assert(tail.skip(1).skip(len as int) =~= rest);
    assert(to_signed(ty_byte as nat, 1) == ty);
    if len == 1 || len == 2 || len == 4 || len == 8 || len == 16 {
        assert(bytes.skip(1) =~= tail);
    } else if len <= 0xff {
        assert(bytes.skip(1).take(1) =~= seq![len as u8]);
        assert(bytes.skip(1).skip(1) =~= tail);
    } else if len <= 0xffff {
        lemma_tag_and_field(EXT16, len, 2, tail);
        assert(bytes =~= seq![EXT16] + be_bytes(len, 2) + tail);
    } else {
        lemma_tag_and_field(EXT32, len, 4, tail);
        assert(bytes =~= seq![EXT32] + be_bytes(len, 4) + tail);
    }
}

/// The encodings of values in a row start with the encoding of the
/// first.
pub proof fn lemma_encode_items_front(items: Seq<Value>, raw_ext: bool)
    requires
        items.len() > 0,
    ensures
        encode_items(items, raw_ext) == encode_value(items[0], raw_ext) + encode_items(
            items.drop_first(),
            raw_ext,
        ),
    decreases items.len(),
{
    let front = items.drop_last();
    let back = items.drop_first();
    if items.len() == 1 {
        assert(encode_items(front, raw_ext) =~= Seq::<u8>::empty());
        assert(encode_items(back, raw_ext) =~= Seq::<u8>::empty());
        assert(encode_items(items, raw_ext) =~= encode_value(items[0], raw_ext) + encode_items(
            back,
            raw_ext,
        ));
    } else {
        lemma_encode_items_front(front, raw_ext);
        assert(front.drop_first() =~= back.drop_last());
        assert(encode_items(items, raw_ext) =~= encode_value(items[0], raw_ext) + encode_items(
            back,
            raw_ext,
        ));
    }
}

/// The encodings of keys and values in a row start with the encodings of
/// the first key and its value.
pub proof fn lemma_encode_pairs_front(pairs: Seq<(Value, Value)>, raw_ext: bool)
    requires
        pairs.len() > 0,
    ensures
        encode_pairs(pairs, raw_ext) == encode_value(pairs[0].0, raw_ext) + encode_value(
            pairs[0].1,
            raw_ext,
        ) + encode_pairs(pairs.drop_first(), raw_ext),
    decreases pairs.len(),
{
    let front = pairs.drop_last();
    let back = pairs.drop_first();
    if pairs.len() == 1 {
        assert(encode_pairs(front, raw_ext) =~= Seq::<u8>::empty());
        assert(encode_pairs(back, raw_ext) =~= Seq::<u8>::empty());
        assert(encode_pairs(pairs, raw_ext) =~= encode_value(pairs[0].0, raw_ext) + encode_value(
            pairs[0].1,
            raw_ext,
        ) + encode_pairs(back, raw_ext));
    } else {
        lemma_encode_pairs_front(front, raw_ext);
        assert(front.drop_first() =~= back.drop_last());
        assert(encode_pairs(pairs, raw_ext) =~= encode_value(pairs[0].0, raw_ext) + encode_value(
            pairs[0].1,
            raw_ext,
        ) + encode_pairs(back, raw_ext));
    }
}

/// A value that is no container is read back from its one token.
proof fn lemma_scalar_round_trip(value: Value, rest: Seq<u8>)
    requires
        encodable(value),
        !(value is Array),
        !(value is Dict),
    ensures
        parse_token(encode_value(value, true) + rest) matches Ok((token, after)) && !(token is Array)
            && !(token is Dict) && token_value(token) == read_back(value) && after == rest,
{
    match value {
        Value::Int(i) => {
            lemma_signed_round_trip(i, rest);
        },
        Value::UInt(u) => {
            lemma_unsigned_round_trip(u, rest);
        },
        Value::Bin(data) => {
            lemma_bin_round_trip(data, rest);
        },
        Value::Str(chars) => {
            lemma_str_round_trip(chars, rest);
        },
        Value::Ext(ty, data) => {
            lemma_ext_round_trip(ty, data, rest);
        },
        Value::Nil => {
            lemma_small_round_trip(rest);
        },
        Value::False => {
            lemma_small_round_trip(rest);
            assert(encode_value(value, true) == encode_bool(false));
        },
        Value::True => {
            lemma_small_round_trip(rest);
            assert(encode_value(value, true) == encode_bool(true));
        },
        Value::F32(bits) => {
            lemma_small_round_trip(rest);
            assert(encode_value(value, true) == encode_f32(bits));
        },
        Value::F64(bits) => {
            lemma_small_round_trip(rest);
            assert(encode_value(value, true) == encode_f64(bits));
        },
        _ => {},
    }
}

/// Reading undoes writing: from the encoding of a value, whatever bytes
/// follow it, the decoder reads the value back and stops exactly where
/// the encoding ends.
pub proof fn lemma_value_round_trip(value: Value, rest: Seq<u8>)
    requires
        encodable(value),
    ensures
        parse_value(encode_value(value, true) + rest) == Ok::<(Value, Seq<u8>), Reason>(
            (read_back(value), rest),
        ),
    decreases value, 0nat,
{
    let bytes = encode_value(value, true) + rest;
    match value {
        Value::Array(items) => {
            let body = encode_items(items, true) + rest;
            lemma_array_header(items.len(), body);
            assert(bytes =~= array_header(items.len()) + body);
            lemma_items_round_trip(items, rest);
            assert(parse_token(bytes) == Ok::<(TokenView, Seq<u8>), Reason>(
                (TokenView::Array(items.len()), body),
            ));
        },
        Value::Dict(pairs) => {
            let body = encode_pairs(pairs, true) + rest;
            lemma_map_header(pairs.len(), body);
            assert(bytes =~= map_header(pairs.len()) + body);
            lemma_pairs_round_trip(pairs, rest);
            assert(parse_token(bytes) == Ok::<(TokenView, Seq<u8>), Reason>(
                (TokenView::Dict(pairs.len()), body),
            ));
        },
        _ => {
            lemma_scalar_round_trip(value, rest);
        },
    }
}

/// Reading undoes writing for values in a row.
pub proof fn lemma_items_round_trip(items: Seq<Value>, rest: Seq<u8>)
    requires
        forall|i: int| 0 <= i < items.len() ==> encodable(#[trigger] items[i]),
    ensures
        parse_items(encode_items(items, true) + rest, items.len()) == Ok::<
            (Seq<Value>, Seq<u8>),
            Reason,
        >((read_back_items(items), rest)),
    decreases items, 1nat,
{
    if items.len() == 0 {
        assert(encode_items(items, true) + rest =~= rest);
        assert(read_back_items(items) =~= Seq::<Value>::empty());
    } else {
        let first = items[0];
        let others = items.drop_first();
        let tail = encode_items(others, true) + rest;
        let whole = encode_value(first, true) + tail;
        lemma_encode_items_front(items, true);
        assert(encode_items(items, true) + rest =~= whole);
        lemma_value_round_trip(first, tail);
        crate::wire::lemma_value_takes_bytes(whole);
        assert forall|i: int| 0 <= i < others.len() implies encodable(#[trigger] others[i]) by {
            assert(others[i] == items[i + 1]);
        }
        lemma_items_round_trip(others, rest);
        assert(seq![read_back(first)] + read_back_items(others) =~= read_back_items(items));
    }
}

/// Reading undoes writing for keys and values in a row.
pub proof fn lemma_pairs_round_trip(pairs: Seq<(Value, Value)>, rest: Seq<u8>)
    requires
        forall|i: int|
            0 <= i < pairs.len() ==> encodable((#[trigger] pairs[i]).0) && encodable(pairs[i].1),
    ensures
        parse_pairs(encode_pairs(pairs, true) + rest, pairs.len()) == Ok::<
            (Seq<(Value, Value)>, Seq<u8>),
            Reason,
        >((read_back_pairs(pairs), rest)),
    decreases pairs, 1nat,
{
    if pairs.len() == 0 {
        assert(encode_pairs(pairs, true) + rest =~= rest);
        assert(read_back_pairs(pairs) =~= Seq::<(Value, Value)>::empty());
    } else {
        let key = pairs[0].0;
        let value = pairs[0].1;
        let others = pairs.drop_first();
        let tail = encode_pairs(others, true) + rest;
        let middle = encode_value(value, true) + tail;
        let whole = encode_value(key, true) + middle;
        lemma_encode_pairs_front(pairs, true);
        assert(encode_pairs(pairs, true) + rest =~= whole);
        lemma_value_round_trip(key, middle);
        crate::wire::lemma_value_takes_bytes(whole);
        lemma_value_round_trip(value, tail);
        crate::wire::lemma_value_takes_bytes(middle);
        assert forall|i: int| 0 <= i < others.len() implies encodable((#[trigger] others[i]).0)
            && encodable(others[i].1) by {
            assert(others[i] == pairs[i + 1]);
        }
        lemma_pairs_round_trip(others, rest);
        assert(seq![(read_back(key), read_back(value))] + read_back_pairs(others)
            =~= read_back_pairs(pairs));
    }
}

} // verus!
