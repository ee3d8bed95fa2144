//! No integer has a shorter form on the wire than the one that the encoder
//! writes.

use crate::endian::{
    lemma_be_bytes_len, lemma_be_value_bound, lemma_pow256_values, to_unsigned,
};
use crate::wire::{encode_signed, encode_unsigned, parse_token, tag_width, token_int};
use vstd::prelude::*;

verus! {

/// The encoding of a signed integer is one, two, three, five or nine
/// bytes long, by the range that the integer lies in.
pub proof fn lemma_signed_len(value: i64)
    ensures
        encode_signed(value).len() == if -32 <= value <= 0x7f {
            1nat
        } else if -0x80 <= value <= 0xff {
            2nat
        } else if -0x8000 <= value <= 0xffff {
            3nat
        } else if -0x8000_0000 <= value <= 0xffff_ffff {
            5nat
        } else {
            9nat
        },
{
    lemma_be_bytes_len(to_unsigned(value as int, 2), 2);
    lemma_be_bytes_len(to_unsigned(value as int, 4), 4);
    lemma_be_bytes_len(to_unsigned(value as int, 8), 8);
    lemma_be_bytes_len(value as nat, 2);
    lemma_be_bytes_len(value as nat, 4);
}

/// The encoding of an unsigned integer is one, two, three, five or nine
/// bytes long, by the range that the integer lies in.
pub proof fn lemma_unsigned_len(value: u64)
    ensures
        encode_unsigned(value).len() == if value <= 0x7f {
            1nat
        } else if value <= 0xff {
            2nat
        } else if value <= 0xffff {
            3nat
        } else if value <= 0xffff_ffff {
            5nat
        } else {
            9nat
        },
{
    lemma_be_bytes_len(value as nat, 2);
    lemma_be_bytes_len(value as nat, 4);
    lemma_be_bytes_len(value as nat, 8);
}

/// How many bytes a token that carries the integer `value` takes at
/// least, whatever form it was written in.
proof fn lemma_int_token_len(bytes: Seq<u8>, value: int)
    requires
        parse_token(bytes) matches Ok((token, _)) && token_int(token) == Some(value),
    ensures
        parse_token(bytes) matches Ok((_, rest)) && ({
            let used = bytes.len() - rest.len();
            &&& used >= 1
            &&& used == 1 ==> -32 <= value <= 0x7f
            &&& used == 2 ==> -0x80 <= value <= 0xff
            &&& 2 < used <= 3 ==> -0x8000 <= value <= 0xffff
            &&& 3 < used <= 5 ==> -0x8000_0000 <= value <= 0xffff_ffff
        }),
{
    lemma_pow256_values();
    let tag = bytes[0];
    let body = bytes.skip(1);
    let width = tag_width(tag);
    if body.len() >= width {
        lemma_be_value_bound(body.take(width as int));
    }
}

/// No form of a signed integer is shorter than the one that is written:
/// whatever bytes the decoder reads as the integer `value`, they are at
/// least as many as its encoding.
pub proof fn lemma_signed_is_shortest(value: i64, bytes: Seq<u8>)
    requires
        parse_token(bytes) matches Ok((token, _)) && token_int(token) == Some(value as int),
    ensures
        parse_token(bytes) matches Ok((_, rest)) && encode_signed(value).len() <= bytes.len()
            - rest.len(),
{
    lemma_signed_len(value);
    lemma_int_token_len(bytes, value as int);
}

/// No form of an unsigned integer is shorter than the one that is
/// written: whatever bytes the decoder reads as the integer `value`, they
/// are at least as many as its encoding.
pub proof fn lemma_unsigned_is_shortest(value: u64, bytes: Seq<u8>)
    requires
        parse_token(bytes) matches Ok((token, _)) && token_int(token) == Some(value as int),
    ensures
        parse_token(bytes) matches Ok((_, rest)) && encode_unsigned(value).len() <= bytes.len()
            - rest.len(),
{
    lemma_unsigned_len(value);
    lemma_int_token_len(bytes, value as int);
}

} // verus!
