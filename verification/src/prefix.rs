//! The decoder reads a value from exactly the bytes that the value takes:
//! with fewer bytes the stream ends, and more bytes change nothing.

use crate::endian::be_value;
use crate::error::Reason;
use crate::generic::Value;
use crate::roundtrip::{lemma_value_round_trip, read_back};
use crate::wire::{
    encodable, encode_value, fixext_len, lemma_items_take_bytes, lemma_pairs_take_bytes,
    lemma_token_takes_bytes, lemma_value_takes_bytes,
    parse_items, parse_pairs, parse_token, parse_value, tag_kind, tag_width, Kind, TokenView,
};
use vstd::prelude::*;

verus! {

/// Cutting bytes off the end and dropping or keeping bytes at the front
/// can be done in either order.
proof fn lemma_cut(s: Seq<u8>, k: int, n: int)
    requires
        0 <= n <= k <= s.len(),
    ensures
        s.take(k).skip(n) == s.skip(n).take(k - n),
        s.take(k).take(n) == s.take(n),
{
    assert(s.take(k).skip(n) =~= s.skip(n).take(k - n));
    assert(s.take(k).take(n) =~= s.take(n));
}

/// What the decoder does with the first `k` bytes of `bytes`, where
/// `bytes` start with a token: where the token takes more than `k`
/// bytes the stream ends, and else the same token is read.
pub proof fn lemma_token_prefix(bytes: Seq<u8>, k: int)
    requires
        parse_token(bytes) is Ok,
        0 <= k <= bytes.len(),
    ensures
        parse_token(bytes) matches Ok((token, rest)) && ({
            let used = bytes.len() - rest.len();
            parse_token(bytes.take(k)) == if k < used {
                Err::<(TokenView, Seq<u8>), Reason>(Reason::EndOfStream)
            } else {
                Ok((token, rest.take(k - used)))
            }
        }),
{
    lemma_token_takes_bytes(bytes);
    let head = bytes.take(k);
    if k > 0 {
        let tag = bytes[0];
        let body = bytes.skip(1);
        let part = head.skip(1);
        let width = tag_width(tag) as int;
        lemma_cut(bytes, k, 1);
        assert(part == body.take(k - 1));
        assert(body.skip(0) =~= body);
        assert(part.skip(0) =~= part);
        match tag_kind(tag) {
            Kind::FixStr => {
                let len = (tag - crate::defs::FIXSTR_MASK) as int;
                if part.len() >= len {
                    lemma_cut(body, k - 1, len);
                }
            },
            Kind::FixExt => {
                let len = fixext_len(tag) as int;
                if part.len() >= 1 + len {
                    lemma_cut(body, k - 1, 1);
                    lemma_cut(body.skip(1), k - 2, len);
                }
            },
            Kind::Bin | Kind::Str => {
                if part.len() >= width {
                    lemma_cut(body, k - 1, width);
                    let len = be_value(body.take(width)) as int;
                    if part.skip(width).len() >= len {
                        lemma_cut(body.skip(width), k - 1 - width, len);
                    }
                }
            },
            Kind::Ext => {
                if part.len() >= width {
                    lemma_cut(body, k - 1, width);
                    let len = be_value(body.take(width)) as int;
                    if part.skip(width).len() >= 1 + len {
                        lemma_cut(body.skip(width), k - 1 - width, 1);
                        lemma_cut(body.skip(width).skip(1), k - 2 - width, len);
                    }
                }
            },
            _ => {
                if part.len() >= width {
                    lemma_cut(body, k - 1, width);
                }
            },
        }
    }
}

/// What the decoder does with the first `k` bytes of `bytes`, where
/// `bytes` start with a value: where the value takes more than `k` bytes
/// the stream ends, and else the same value is read.
pub proof fn lemma_value_prefix(bytes: Seq<u8>, k: int)
    requires
        parse_value(bytes) is Ok,
        0 <= k <= bytes.len(),
    ensures
        parse_value(bytes) matches Ok((value, rest)) && ({
            let used = bytes.len() - rest.len();
            parse_value(bytes.take(k)) == if k < used {
                Err::<(Value, Seq<u8>), Reason>(Reason::EndOfStream)
            } else {
                Ok((value, rest.take(k - used)))
            }
        }),
    decreases bytes.len(), 0nat,
{
    lemma_token_takes_bytes(bytes);
    lemma_value_takes_bytes(bytes);
    lemma_token_prefix(bytes, k);
    let (token, body) = parse_token(bytes).unwrap();
    let head = bytes.len() - body.len();
    match token {
        TokenView::Array(count) => {
            lemma_items_take_bytes(body, count);
            if k >= head {
                lemma_items_prefix(body, count, k - head);
            }
        },
        TokenView::Dict(count) => {
            lemma_pairs_take_bytes(body, count);
            if k >= head {
                lemma_pairs_prefix(body, count, k - head);
            }
        },
        _ => {},
    }
}

/// What the decoder does with the first `k` bytes of `bytes`, where
/// `bytes` start with `count` values.
pub proof fn lemma_items_prefix(bytes: Seq<u8>, count: nat, k: int)
    requires
        parse_items(bytes, count) is Ok,
        0 <= k <= bytes.len(),
    ensures
        parse_items(bytes, count) matches Ok((items, rest)) && ({
            let used = bytes.len() - rest.len();
            parse_items(bytes.take(k), count) == if k < used {
                Err::<(Seq<Value>, Seq<u8>), Reason>(Reason::EndOfStream)
            } else {
                Ok((items, rest.take(k - used)))
            }
        }),
    decreases bytes.len(), count + 1,
{
    lemma_items_take_bytes(bytes, count);
    if count == 0 {
        assert(bytes.take(k).take(k) =~= bytes.take(k));
    } else {
        lemma_value_takes_bytes(bytes);
        lemma_value_prefix(bytes, k);
        let (first, after) = parse_value(bytes).unwrap();
        let head = bytes.len() - after.len();
        lemma_items_take_bytes(after, (count - 1) as nat);
        if k >= head {
            lemma_value_takes_bytes(bytes.take(k));
            lemma_items_prefix(after, (count - 1) as nat, k - head);
        }
    }
}

/// What the decoder does with the first `k` bytes of `bytes`, where
/// `bytes` start with `count` keys, each with its value.
pub proof fn lemma_pairs_prefix(bytes: Seq<u8>, count: nat, k: int)
    requires
        parse_pairs(bytes, count) is Ok,
        0 <= k <= bytes.len(),
    ensures
        parse_pairs(bytes, count) matches Ok((pairs, rest)) && ({
            let used = bytes.len() - rest.len();
            parse_pairs(bytes.take(k), count) == if k < used {
                Err::<(Seq<(Value, Value)>, Seq<u8>), Reason>(Reason::EndOfStream)
            } else {
                Ok((pairs, rest.take(k - used)))
            }
        }),
    decreases bytes.len(), count + 1,
{
    lemma_pairs_take_bytes(bytes, count);
    if count == 0 {
        assert(bytes.take(k).take(k) =~= bytes.take(k));
    } else {
        lemma_value_takes_bytes(bytes);
        lemma_value_prefix(bytes, k);
        let (key, after) = parse_value(bytes).unwrap();
        let head = bytes.len() - after.len();
        lemma_value_takes_bytes(after);
        let (value, after2) = parse_value(after).unwrap();
        let head2 = after.len() - after2.len();
        lemma_pairs_take_bytes(after2, (count - 1) as nat);
        if k >= head {
            lemma_value_takes_bytes(bytes.take(k));
            lemma_value_prefix(after, k - head);
            if k - head >= head2 {
                lemma_value_takes_bytes(after.take(k - head));
                lemma_pairs_prefix(after2, (count - 1) as nat, k - head - head2);
            }
        }
    }
}

/// An encoding that is cut short ends the stream: from fewer bytes than a
/// value was written as, nothing is read.
pub proof fn lemma_truncated(value: Value, k: int)
    requires
        encodable(value),
        0 <= k < encode_value(value, true).len(),
    ensures
        parse_value(encode_value(value, true).take(k)) == Err::<(Value, Seq<u8>), Reason>(
            Reason::EndOfStream,
        ),
{
    let bytes = encode_value(value, true);
    lemma_value_round_trip(value, Seq::empty());
    assert(bytes + Seq::<u8>::empty() =~= bytes);
    lemma_value_prefix(bytes, k);
}

/// Bytes after an encoding change nothing: the value is read back from
/// the encoding alone, too.
pub proof fn lemma_whole(value: Value)
    requires
        encodable(value),
    ensures
        parse_value(encode_value(value, true)) == Ok::<(Value, Seq<u8>), Reason>(
            (read_back(value), Seq::empty()),
        ),
{
    let bytes = encode_value(value, true);
    lemma_value_round_trip(value, Seq::empty());
    assert(bytes + Seq::<u8>::empty() =~= bytes);
}

} // verus!
