//! A value of any shape that the wire format can carry.

use crate::de::{Deserializer, Token};
use crate::defs::{MAX_ARRAY32, MAX_MAP32};
use crate::error::{Error, Reason};
use crate::map_serializer::MapSerializer;
use crate::seq_serializer::SeqSerializer;
use crate::seq_visitor::SeqVisitor;
use crate::ser::Serializer;
use crate::wire::{
    array_header, encodable, encode_each_byte, encode_ext_fields, encode_items, encode_pairs,
    encode_value,
    lemma_prefix_chain, lemma_token_takes_bytes, lemma_value_takes_bytes, max_len, parse_items,
    parse_pairs, parse_value, token_value, TokenView,
};
use vstd::prelude::*;
use vstd::slice::slice_to_vec;
use vstd::string::*;
use vstd::utf8::*;

verus! {

/// The mathematical model of a [`Generic`]: the same tree, with sequences
/// in place of vectors and strings.
pub enum Value {
    Nil,
    False,
    True,
    Int(i64),
    UInt(u64),
    F32(u32),
    F64(u64),
    Bin(Seq<u8>),
    Str(Seq<char>),
    Array(Seq<Value>),
    Dict(Seq<(Value, Value)>),
    Ext(i8, Seq<u8>),
}

/// A schema-free value. Floating-point numbers are held by their IEEE 754
/// bit patterns.
#[derive(Debug, PartialEq)]
pub enum Generic {
    Nil,
    False,
    True,
    Int(i64),
    UInt(u64),
    F32(u32),
    F64(u64),
    Bin(Vec<u8>),
    Str(String),
    Array(Vec<Generic>),
    Dict(Vec<(Generic, Generic)>),
    Ext(i8, Vec<u8>),
}

/// The models of a run of values, in order.
pub open spec fn view_items(items: Seq<Generic>) -> Seq<Value>
    decreases items, 0nat,
{
    Seq::new(items.len(), |i: int| if 0 <= i < items.len() { items[i].view() } else { Value::Nil })
}

/// The model of a key with its value.
pub open spec fn view_pair(pair: (Generic, Generic)) -> (Value, Value)
    decreases pair, 0nat,
{
    (pair.0.view(), pair.1.view())
}

/// The models of a run of key-value pairs, in order.
pub open spec fn view_pairs(pairs: Seq<(Generic, Generic)>) -> Seq<(Value, Value)>
    decreases pairs, 1nat,
{
    Seq::new(
        pairs.len(),
        |i: int|
            if 0 <= i < pairs.len() {
                view_pair(pairs[i])
            } else {
                (Value::Nil, Value::Nil)
            },
    )
}

impl View for Generic {
    type V = Value;

    open spec fn view(&self) -> Value
        decreases self, 1nat,
    {
        match self {
            Generic::Nil => Value::Nil,
            Generic::False => Value::False,
            Generic::True => Value::True,
            Generic::Int(i) => Value::Int(*i),
            Generic::UInt(u) => Value::UInt(*u),
            Generic::F32(bits) => Value::F32(*bits),
            Generic::F64(bits) => Value::F64(*bits),
            Generic::Bin(bytes) => Value::Bin(bytes@),
            Generic::Str(s) => Value::Str(s@),
            Generic::Array(items) => Value::Array(view_items(items@)),
            Generic::Dict(pairs) => Value::Dict(view_pairs(pairs@)),
            Generic::Ext(ty, data) => Value::Ext(*ty, data@),
        }
    }
}

impl Clone for Generic {
    /// A copy of the whole tree.
    #[verifier::loop_isolation(false)]
    fn clone(&self) -> (copy: Generic)
        ensures
            copy@ == self@,
        decreases self,
    {
        match self {
            Generic::Nil => Generic::Nil,
            Generic::False => Generic::False,
            Generic::True => Generic::True,
            Generic::Int(i) => Generic::Int(*i),
            Generic::UInt(u) => Generic::UInt(*u),
            Generic::F32(bits) => Generic::F32(*bits),
            Generic::F64(bits) => Generic::F64(*bits),
            Generic::Bin(bytes) => Generic::Bin(bytes.clone()),
            Generic::Str(s) => Generic::Str(s.clone()),
            Generic::Array(items) => {
                let mut copies: Vec<Generic> = Vec::new();
                let mut i: usize = 0;
                while i < items.len()
                    invariant
                        i <= items.len(),
                        copies.len() == i,
                        forall|j: int| 0 <= j < i ==> copies@[j]@ == items@[j]@,
                    decreases items.len() - i,
                {
                    copies.push(items[i].clone());
                    i += 1;
                }
                assert(view_items(copies@) =~= view_items(items@));
                Generic::Array(copies)
            },
            Generic::Dict(pairs) => {
                let mut copies: Vec<(Generic, Generic)> = Vec::new();
                let mut i: usize = 0;
                while i < pairs.len()
                    invariant
                        i <= pairs.len(),
                        copies.len() == i,
                        forall|j: int| 0 <= j < i ==> view_pair(copies@[j]) == view_pair(pairs@[j]),
                    decreases pairs.len() - i,
                {
                    copies.push((pairs[i].0.clone(), pairs[i].1.clone()));
                    i += 1;
                }
                assert(view_pairs(copies@) =~= view_pairs(pairs@));
                Generic::Dict(copies)
            },
            Generic::Ext(ty, data) => Generic::Ext(*ty, data.clone()),
        }
    }
}

impl Generic {
    /// Writes the value as any structure is written: an extension value
    /// becomes a structure of two fields, `type` and `data`.
    pub fn serialize(&self, s: &mut Serializer) -> (r: Result<(), Error>)
        ensures
            match r {
                Ok(()) => encodable(self@) && final(s)@ == old(s)@ + encode_value(self@, false),
                Err(e) => {
                    &&& !encodable(self@)
                    &&& e.reason() == Reason::TooBig
                    &&& old(s)@.is_prefix_of(final(s)@)
                },
            },
    {
        self.encode(s, false)
    }

    /// Writes the value in the wire format, an extension value in the
    /// format's own extension form.
    pub fn serialize_pack(&self, s: &mut Serializer) -> (r: Result<(), Error>)
        ensures
            match r {
                Ok(()) => encodable(self@) && final(s)@ == old(s)@ + encode_value(self@, true),
                Err(e) => {
                    &&& !encodable(self@)
                    &&& e.reason() == Reason::TooBig
                    &&& old(s)@.is_prefix_of(final(s)@)
                },
            },
    {
        self.encode(s, true)
    }

    /// Writes the value, extension values in the extension form where
    /// `pack` holds and as structures of two fields where it does not.
    pub fn encode(&self, s: &mut Serializer, pack: bool) -> (r: Result<(), Error>)
        ensures
            match r {
                Ok(()) => encodable(self@) && final(s)@ == old(s)@ + encode_value(self@, pack),
                Err(e) => {
                    &&& !encodable(self@)
                    &&& e.reason() == Reason::TooBig
                    &&& old(s)@.is_prefix_of(final(s)@)
                },
            },
        decreases self, 0nat,
    {
        match self {
            Generic::Nil => {
                s.serialize_unit();
                Ok(())
            },
            Generic::False => {
                s.serialize_bool(false);
                Ok(())
            },
            Generic::True => {
                s.serialize_bool(true);
                Ok(())
            },
            Generic::Int(i) => {
                s.serialize_signed(*i);
                Ok(())
            },
            Generic::UInt(u) => {
                s.serialize_unsigned(*u);
                Ok(())
            },
            Generic::F32(bits) => {
                s.serialize_f32(*bits);
                Ok(())
            },
            Generic::F64(bits) => {
                s.serialize_f64(*bits);
                Ok(())
            },
            Generic::Bin(bytes) => s.serialize_bytes(bytes.as_slice()),
            Generic::Str(st) => s.serialize_str(st.as_str()),
            Generic::Array(items) => Self::encode_array(items, s, pack),
            Generic::Dict(pairs) => Self::encode_dict(pairs, s, pack),
            Generic::Ext(ty, data) => {
                if pack {
                    s.serialize_ext(*ty, data.as_slice())
                } else {
                    Self::encode_ext_as_fields(*ty, data, s)
                }
            },
        }
    }

    /// Writes an array: its header, then its elements in order.
    fn encode_array(items: &Vec<Generic>, s: &mut Serializer, pack: bool) -> (r: Result<(), Error>)
        ensures
            match r {
                Ok(()) => {
                    &&& encodable(Value::Array(view_items(items@)))
                    &&& final(s)@ == old(s)@ + encode_value(Value::Array(view_items(items@)), pack)
                },
                Err(e) => {
                    &&& !encodable(Value::Array(view_items(items@)))
                    &&& e.reason() == Reason::TooBig
                    &&& old(s)@.is_prefix_of(final(s)@)
                },
            },
        decreases items, 3nat,
    {
        let ghost model = view_items(items@);
        let mut state = SeqSerializer::new();
        state.hint_size(Some(items.len()), s)?;
        let mut i: usize = 0;
        while i < items.len()
            invariant
                i <= items.len(),
                model == view_items(items@),
                state@.count == i,
                state@.size == Some(items.len() as nat),
                s@ == old(s)@ + array_header(model.len()) + encode_items(
                    model.take(i as int),
                    pack,
                ),
                forall|j: int| 0 <= j < i ==> encodable(#[trigger] model[j]),
            decreases items.len() - i,
        {
            let ghost before = s@;
            let r = state.serialize_element(&items[i], pack, s);
            if let Err(e) = r {
                assert(!encodable(model[i as int]));
                proof {
                    lemma_prefix_chain(old(s)@, before, s@);
                }
                return Err(e);
            }
            proof {
                assert(model.take(i + 1).drop_last() =~= model.take(i as int));
                assert(s@ =~= old(s)@ + array_header(model.len()) + encode_items(
                    model.take(i + 1),
                    pack,
                ));
            }
            i += 1;
        }
        assert(model.take(i as int) =~= model);
        state.finish(s)
    }

    /// Writes a map: its header, then each key with its value, in order.
    fn encode_dict(pairs: &Vec<(Generic, Generic)>, s: &mut Serializer, pack: bool) -> (r: Result<
        (),
        Error,
    >)
        ensures
            match r {
                Ok(()) => {
                    &&& encodable(Value::Dict(view_pairs(pairs@)))
                    &&& final(s)@ == old(s)@ + encode_value(Value::Dict(view_pairs(pairs@)), pack)
                },
                Err(e) => {
                    &&& !encodable(Value::Dict(view_pairs(pairs@)))
                    &&& e.reason() == Reason::TooBig
                    &&& final(s)@ == old(s)@
                },
            },
        decreases pairs, 3nat,
    {
        let ghost model = view_pairs(pairs@);
        if pairs.len() > MAX_MAP32 {
            return Err(Error::simple(Reason::TooBig));
        }
        let mut state = MapSerializer::new();
        let mut i: usize = 0;
        while i < pairs.len()
            invariant
                i <= pairs.len(),
                pairs.len() <= MAX_MAP32,
                model == view_pairs(pairs@),
                state@.size == 2 * i,
                state@.buffer == encode_pairs(model.take(i as int), pack),
                forall|j: int|
                    0 <= j < i ==> encodable((#[trigger] model[j]).0) && encodable(model[j].1),
            decreases pairs.len() - i,
        {
            let key = state.serialize_element(&pairs[i].0, pack);
            if let Err(e) = key {
                assert(!encodable(model[i as int].0));
                return Err(e);
            }
            let value = state.serialize_element(&pairs[i].1, pack);
            if let Err(e) = value {
                assert(!encodable(model[i as int].1));
                return Err(e);
            }
            proof {
                assert(model.take(i + 1).drop_last() =~= model.take(i as int));
                assert(state@.buffer =~= encode_pairs(model.take(i + 1), pack));
            }
            i += 1;
        }
        assert(model.take(i as int) =~= model);
        state.finish(s)
    }

    /// Writes an extension value as a structure of two fields: its type
    /// under the name `type`, and its data, as a sequence of integers,
    /// under the name `data`.
    fn encode_ext_as_fields(ty: i8, data: &Vec<u8>, s: &mut Serializer) -> (r: Result<(), Error>)
        ensures
            match r {
                Ok(()) => {
                    &&& data@.len() <= max_len()
                    &&& final(s)@ == old(s)@ + encode_ext_fields(ty, data@)
                },
                Err(e) => {
                    &&& data@.len() > max_len()
                    &&& e.reason() == Reason::TooBig
                    &&& final(s)@ == old(s)@
                },
            },
    {
        if data.len() > MAX_ARRAY32 {
            return Err(Error::simple(Reason::TooBig));
        }
        proof {
            reveal_strlit("type");
            reveal_strlit("data");
            lemma_short_ascii("type"@);
            lemma_short_ascii("data"@);
        }
        let mut state = MapSerializer::new();
        let name = state.serialize_field_name("type");
        assert(name is Ok);
        let mut target = Serializer::new();
        target.serialize_signed(ty as i64);
        let field = state.serialize_encoded(target.as_slice());
        assert(field is Ok);
        let name = state.serialize_field_name("data");
        assert(name is Ok);
        let bytes = Self::encode_bytes_as_array(data);
        let field = state.serialize_encoded(bytes.as_slice());
        assert(field is Ok);
        let r = state.finish(s);
        assert(r is Ok);
        assert(s@ =~= old(s)@ + encode_ext_fields(ty, data@));
        r
    }

    /// The encoding of the sequence of the bytes `data`, each an integer.
    fn encode_bytes_as_array(data: &Vec<u8>) -> (bytes: Vec<u8>)
        requires
            data@.len() <= max_len(),
        ensures
            bytes@ == array_header(data@.len()) + encode_each_byte(data@),
    {
        let mut out = Serializer::new();
        let opened = out.serialize_seq(Some(data.len()));
        assert(opened is Ok);
        let mut seq = opened.unwrap();
        let mut i: usize = 0;
        while i < data.len()
            invariant
                i <= data.len(),
                seq@.count == i,
                seq@.size == Some(data.len() as nat),
                out@ == array_header(data@.len()) + encode_each_byte(data@.take(i as int)),
            decreases data.len() - i,
        {
            let mut one = Serializer::new();
            one.serialize_unsigned(data[i] as u64);
            let added = seq.serialize_encoded(one.as_slice(), &mut out);
            assert(added is Ok);
            proof {
                assert(data@.take(i + 1).drop_last() =~= data@.take(i as int));
                assert(out@ =~= array_header(data@.len()) + encode_each_byte(data@.take(i + 1)));
            }
            i += 1;
        }
        assert(data@.take(i as int) =~= data@);
        let closed = seq.finish(&mut out);
        assert(closed is Ok);
        out.into_bytes()
    }
}

/// Why a map is refused whose last key, at the head of `bytes`, has no
/// value in the budget: the key itself cannot be read, or else the stream
/// counts as ended after it.
pub open spec fn key_without_value(bytes: Seq<u8>) -> Reason {
    match parse_value(bytes) {
        Err(reason) => reason,
        Ok(_) => Reason::EndOfStream,
    }
}

/// Turns what the decoder reads into [`Generic`] values.
#[derive(Debug)]
pub struct GenericVisitor;

impl GenericVisitor {
    pub fn visit_bool(&self, v: bool) -> (g: Generic)
        ensures
            g@ == token_value(TokenView::Bool(v)),
    {
        if v {
            Generic::True
        } else {
            Generic::False
        }
    }

    pub fn visit_i64(&self, v: i64) -> (g: Generic)
        ensures
            g@ == Value::Int(v),
    {
        Generic::Int(v)
    }

    pub fn visit_u64(&self, v: u64) -> (g: Generic)
        ensures
            g@ == Value::UInt(v),
    {
        Generic::UInt(v)
    }

    pub fn visit_f32(&self, bits: u32) -> (g: Generic)
        ensures
            g@ == Value::F32(bits),
    {
        Generic::F32(bits)
    }

    pub fn visit_f64(&self, bits: u64) -> (g: Generic)
        ensures
            g@ == Value::F64(bits),
    {
        Generic::F64(bits)
    }

    pub fn visit_str(&self, v: &str) -> (g: Generic)
        ensures
            g@ == Value::Str(v@),
    {
        Generic::Str(v.to_owned())
    }

    pub fn visit_string(&self, v: String) -> (g: Generic)
        ensures
            g@ == Value::Str(v@),
    {
        Generic::Str(v)
    }

    pub fn visit_unit(&self) -> (g: Generic)
        ensures
            g@ == Value::Nil,
    {
        Generic::Nil
    }

    pub fn visit_none(&self) -> (g: Generic)
        ensures
            g@ == Value::Nil,
    {
        self.visit_unit()
    }

    pub fn visit_bytes(&self, v: &[u8]) -> (g: Generic)
        ensures
            g@ == Value::Bin(v@),
    {
        Generic::Bin(slice_to_vec(v))
    }

    pub fn visit_byte_buf(&self, v: Vec<u8>) -> (g: Generic)
        ensures
            g@ == Value::Bin(v@),
    {
        Generic::Bin(v)
    }

    pub fn visit_ext(&self, ty: i8, data: Vec<u8>) -> (g: Generic)
        ensures
            g@ == Value::Ext(ty, data@),
    {
        Generic::new_ext(ty, data)
    }

    /// Reads the value that an optional value holds.
    pub fn visit_some(&self, de: &mut Deserializer) -> (r: Result<Generic, Error>)
        ensures
            match r {
                Ok(g) => parse_value(old(de).remaining()) matches Ok((value, rest)) && g@ == value
                    && final(de).remaining() == rest,
                Err(e) => parse_value(old(de).remaining()) matches Err(reason) && e.reason()
                    == reason,
            },
    {
        Generic::deserialize(de)
    }

    /// Reads the value that a wrapper of one field holds.
    pub fn visit_newtype_struct(&self, de: &mut Deserializer) -> (r: Result<Generic, Error>)
        ensures
            match r {
                Ok(g) => parse_value(old(de).remaining()) matches Ok((value, rest)) && g@ == value
                    && final(de).remaining() == rest,
                Err(e) => parse_value(old(de).remaining()) matches Err(reason) && e.reason()
                    == reason,
            },
    {
        Generic::deserialize(de)
    }

    /// Reads the elements that `v` still has to hand out, into an array.
    pub fn visit_seq(&self, v: SeqVisitor, de: &mut Deserializer) -> (r: Result<Generic, Error>)
        ensures
            match r {
                Ok(g) => {
                    &&& parse_items(old(de).remaining(), v@) matches Ok((items, rest))
                    &&& g@ == Value::Array(items)
                    &&& final(de).remaining() == rest
                },
                Err(e) => parse_items(old(de).remaining(), v@) matches Err(reason) && e.reason()
                    == reason,
            },
        decreases old(de).remaining().len(), 3nat,
    {
        let mut budget = v;
        let mut buf: Vec<Generic> = Vec::new();
        let ghost start = de.remaining();
        let ghost total = v@;
        loop
            invariant
                de.remaining().len() <= start.len(),
                start == old(de).remaining(),
                total == v@,
                budget@ <= total,
                match parse_items(de.remaining(), budget@) {
                    Ok((others, rest)) => parse_items(start, total) == Ok::<
                        (Seq<Value>, Seq<u8>),
                        Reason,
                    >((view_items(buf@) + others, rest)),
                    Err(reason) => parse_items(start, total) == Err::<
                        (Seq<Value>, Seq<u8>),
                        Reason,
                    >(reason),
                },
            decreases budget@,
        {
            let ghost before = de.remaining();
            let ghost done = view_items(buf@);
            proof {
                lemma_value_takes_bytes(before);
            }
            match budget.visit_item(de) {
                Err(e) => {
                    return Err(e);
                },
                Ok(None) => {
                    assert(view_items(buf@) + Seq::<Value>::empty() =~= view_items(buf@));
                    return Ok(Generic::Array(buf));
                },
                Ok(Some(item)) => {
                    buf.push(item);
                    proof {
                        assert(view_items(buf@) =~= done.push(item@));
                        if let Ok((others, rest)) = parse_items(de.remaining(), budget@) {
                            assert(done + (seq![item@] + others) =~= view_items(buf@) + others);
                        }
                    }
                },
            }
        }
    }

    /// Reads the keys and values that `v` still has to hand out, into a
    /// map. The budget of `v` is the number of keys and values together;
    /// where it is odd, the last key is left without a value, and the map
    /// is refused.
    pub fn visit_map(&self, v: SeqVisitor, de: &mut Deserializer) -> (r: Result<Generic, Error>)
        ensures
            match r {
                Ok(g) => {
                    &&& v@ % 2 == 0
                    &&& parse_pairs(old(de).remaining(), v@ / 2) matches Ok((pairs, rest))
                    &&& g@ == Value::Dict(pairs)
                    &&& final(de).remaining() == rest
                },
                Err(e) => match parse_pairs(old(de).remaining(), v@ / 2) {
                    Err(reason) => e.reason() == reason,
                    Ok((_, rest)) => v@ % 2 == 1 && e.reason() == key_without_value(rest),
                },
            },
        decreases old(de).remaining().len(), 3nat,
    {
        let mut budget = v;
        let mut buf: Vec<(Generic, Generic)> = Vec::new();
        let ghost start = de.remaining();
        let ghost total = v@ / 2;
        loop
            invariant
                de.remaining().len() <= start.len(),
                start == old(de).remaining(),
                total == v@ / 2,
                budget@ % 2 == v@ % 2,
                budget@ / 2 <= total,
                match parse_pairs(de.remaining(), budget@ / 2) {
                    Ok((others, rest)) => parse_pairs(start, total) == Ok::<
                        (Seq<(Value, Value)>, Seq<u8>),
                        Reason,
                    >((view_pairs(buf@) + others, rest)),
                    Err(reason) => parse_pairs(start, total) == Err::<
                        (Seq<(Value, Value)>, Seq<u8>),
                        Reason,
                    >(reason),
                },
            decreases budget@,
        {
            let ghost before = de.remaining();
            let ghost done = view_pairs(buf@);
            proof {
                lemma_value_takes_bytes(before);
            }
            let key = match budget.next_key(de) {
                Err(e) => {
                    return Err(e);
                },
                Ok(None) => {
                    assert(view_pairs(buf@) + Seq::<(Value, Value)>::empty() =~= view_pairs(buf@));
                    return Ok(Generic::Dict(buf));
                },
                Ok(Some(key)) => key,
            };
            proof {
                lemma_value_takes_bytes(de.remaining());
            }
            let value = match budget.next_value(de) {
                Err(e) => {
                    return Err(e);
                },
                Ok(value) => value,
            };
            let ghost pair = (key@, value@);
            buf.push((key, value));
            proof {
                assert(view_pairs(buf@) =~= done.push(pair));
                if let Ok((others, rest)) = parse_pairs(de.remaining(), budget@ / 2) {
                    assert(done + (seq![pair] + others) =~= view_pairs(buf@) + others);
                }
            }
        }
    }

    /// Turns one token into a value, reading on where the token opens a
    /// container.
    pub fn visit(&self, token: Token, de: &mut Deserializer) -> (r: Result<Generic, Error>)
        ensures
            match r {
                Ok(g) => match token@ {
                    TokenView::Array(count) => {
                        &&& parse_items(old(de).remaining(), count) matches Ok((items, rest))
                        &&& g@ == Value::Array(items)
                        &&& final(de).remaining() == rest
                    },
                    TokenView::Dict(count) => {
                        &&& parse_pairs(old(de).remaining(), count) matches Ok((pairs, rest))
                        &&& g@ == Value::Dict(pairs)
                        &&& final(de).remaining() == rest
                    },
                    other => g@ == token_value(other) && final(de).remaining() == old(
                        de,
                    ).remaining(),
                },
                Err(e) => match token@ {
                    TokenView::Array(count) => parse_items(old(de).remaining(), count) matches Err(
                        reason,
                    ) && e.reason() == reason,
                    TokenView::Dict(count) => parse_pairs(old(de).remaining(), count) matches Err(
                        reason,
                    ) && e.reason() == reason,
                    _ => false,
                },
            },
        decreases old(de).remaining().len(), 4nat,
    {
        match token {
            Token::Unit => Ok(self.visit_unit()),
            Token::Bool(v) => Ok(self.visit_bool(v)),
            Token::U8(v) => Ok(self.visit_u64(v as u64)),
            Token::U16(v) => Ok(self.visit_u64(v as u64)),
            Token::U32(v) => Ok(self.visit_u64(v as u64)),
            Token::U64(v) => Ok(self.visit_u64(v)),
            Token::I8(v) => Ok(self.visit_i64(v as i64)),
            Token::I16(v) => Ok(self.visit_i64(v as i64)),
            Token::I32(v) => Ok(self.visit_i64(v as i64)),
            Token::I64(v) => Ok(self.visit_i64(v)),
            Token::F32(bits) => Ok(self.visit_f32(bits)),
            Token::F64(bits) => Ok(self.visit_f64(bits)),
            Token::Str(v) => Ok(self.visit_str(v)),
            Token::Bytes(v) => Ok(self.visit_bytes(v)),
            Token::Array(count) => self.visit_seq(SeqVisitor::new(count as u64), de),
            Token::Dict(count) => self.visit_map(SeqVisitor::new(count as u64 * 2), de),
            Token::Ext(ty, data) => Ok(self.visit_ext(ty, slice_to_vec(data))),
        }
    }
}

impl Generic {
    /// Reads one value, whatever its shape.
    pub fn deserialize(de: &mut Deserializer) -> (r: Result<Generic, Error>)
        ensures
            match r {
                Ok(g) => parse_value(old(de).remaining()) matches Ok((value, rest)) && g@ == value
                    && final(de).remaining() == rest,
                Err(e) => parse_value(old(de).remaining()) matches Err(reason) && e.reason()
                    == reason,
            },
        decreases old(de).remaining().len(), 0nat,
    {
        proof {
            lemma_token_takes_bytes(de.remaining());
        }
        let token = de.deserialize_any()?;
        GenericVisitor.visit(token, de)
    }

    /// The one value among `items`. A typed value is turned into a
    /// `Generic` by writing it out as values; exactly one must come of it.
    pub fn from_items(items: Vec<Generic>) -> (r: Result<Generic, Error>)
        ensures
            match r {
                Ok(value) => items@.len() == 1 && value == items@[0],
                Err(e) => {
                    &&& items@.len() != 1
                    &&& e.reason() == Reason::BadLength
                    &&& e.spec_detail() == if items@.len() == 0 {
                        "Value serialized into no items"@
                    } else {
                        "Value serialized into more than one item"@
                    }
                },
            },
    {
        let mut buf = items;
        if let Some(generic) = buf.pop() {
            if buf.len() != 0 {
                Err(
                    Error::new(
                        Reason::BadLength,
                        String::from_str("Value serialized into more than one item"),
                    ),
                )
            } else {
                Ok(generic)
            }
        } else {
            Err(Error::new(Reason::BadLength, String::from_str("Value serialized into no items")))
        }
    }

    /// The map that has `keys` as its keys and `values`, in the same
    /// order, as their values. There must be as many of the one as of the
    /// other.
    pub fn from_keys_and_values(keys: Vec<Generic>, values: Vec<Generic>) -> (r: Result<
        Generic,
        Error,
    >)
        ensures
            match r {
                Ok(value) => {
                    &&& keys@.len() == values@.len()
                    &&& value matches Generic::Dict(pairs)
                    &&& pairs@.len() == keys@.len()
                    &&& forall|i: int|
                        0 <= i < pairs@.len() ==> (#[trigger] pairs@[i]).0 == keys@[i]
                            && pairs@[i].1 == values@[i]
                },
                Err(e) => {
                    &&& keys@.len() != values@.len()
                    &&& e.reason() == Reason::Other
                    &&& e.spec_detail() == "Number of keys and number of values did not match"@
                },
            },
    {
        if keys.len() != values.len() {
            return Err(
                Error::new(
                    Reason::Other,
                    String::from_str("Number of keys and number of values did not match"),
                ),
            );
        }
        let mut keys = keys;
        let mut values = values;
        let ghost all_keys = keys@;
        let ghost all_values = values@;
        let mut reversed: Vec<(Generic, Generic)> = Vec::new();
        while keys.len() > 0
            invariant
                keys@.len() == values@.len(),
                keys@.len() + reversed@.len() == all_keys.len(),
                all_keys.len() == all_values.len(),
                keys@ == all_keys.take(keys@.len() as int),
                values@ == all_values.take(values@.len() as int),
                forall|i: int|
                    0 <= i < reversed@.len() ==> (#[trigger] reversed@[i]).0 == all_keys[all_keys.len()
                        - 1 - i] && reversed@[i].1 == all_values[all_keys.len() - 1 - i],
            decreases keys@.len(),
        {
            let key = keys.pop().unwrap();
            let value = values.pop().unwrap();
            reversed.push((key, value));
            assert(keys@ =~= all_keys.take(keys@.len() as int));
            assert(values@ =~= all_values.take(values@.len() as int));
        }
        let mut pairs: Vec<(Generic, Generic)> = Vec::new();
        while reversed.len() > 0
            invariant
                reversed@.len() + pairs@.len() == all_keys.len(),
                forall|i: int|
                    0 <= i < reversed@.len() ==> (#[trigger] reversed@[i]).0 == all_keys[all_keys.len()
                        - 1 - i] && reversed@[i].1 == all_values[all_keys.len() - 1 - i],
                forall|i: int|
                    0 <= i < pairs@.len() ==> (#[trigger] pairs@[i]).0 == all_keys[i] && pairs@[i].1
                        == all_values[i],
            decreases reversed@.len(),
        {
            let pair = reversed.pop().unwrap();
            pairs.push(pair);
        }
        Ok(Generic::Dict(pairs))
    }

    /// Whether the value is the unit value.
    pub fn is_nil(&self) -> (r: bool)
        ensures
            r == (self@ is Nil),
    {
        match self {
            Generic::Nil => true,
            _ => false,
        }
    }

    /// Whether the value is the boolean `false`.
    pub fn is_false(&self) -> (r: bool)
        ensures
            r == (self@ is False),
    {
        match self {
            Generic::False => true,
            _ => false,
        }
    }

    /// Whether the value is the boolean `true`.
    pub fn is_true(&self) -> (r: bool)
        ensures
            r == (self@ is True),
    {
        match self {
            Generic::True => true,
            _ => false,
        }
    }

    /// Whether the value is a signed integer.
    pub fn is_int(&self) -> (r: bool)
        ensures
            r == (self@ is Int),
    {
        match self {
            Generic::Int(_) => true,
            _ => false,
        }
    }

    /// Whether the value is an unsigned integer.
    pub fn is_uint(&self) -> (r: bool)
        ensures
            r == (self@ is UInt),
    {
        match self {
            Generic::UInt(_) => true,
            _ => false,
        }
    }

    /// Whether the value is a 32-bit float.
    pub fn is_f32(&self) -> (r: bool)
        ensures
            r == (self@ is F32),
    {
        match self {
            Generic::F32(_) => true,
            _ => false,
        }
    }

    /// Whether the value is a 64-bit float.
    pub fn is_f64(&self) -> (r: bool)
        ensures
            r == (self@ is F64),
    {
        match self {
            Generic::F64(_) => true,
            _ => false,
        }
    }

    /// Whether the value is a byte blob.
    pub fn is_bin(&self) -> (r: bool)
        ensures
            r == (self@ is Bin),
    {
        match self {
            Generic::Bin(_) => true,
            _ => false,
        }
    }

    /// Whether the value is a string.
    pub fn is_str(&self) -> (r: bool)
        ensures
            r == (self@ is Str),
    {
        match self {
            Generic::Str(_) => true,
            _ => false,
        }
    }

    /// Whether the value is an array.
    pub fn is_array(&self) -> (r: bool)
        ensures
            r == (self@ is Array),
    {
        match self {
            Generic::Array(_) => true,
            _ => false,
        }
    }

    /// Whether the value is a map.
    pub fn is_map(&self) -> (r: bool)
        ensures
            r == (self@ is Dict),
    {
        match self {
            Generic::Dict(_) => true,
            _ => false,
        }
    }

    /// Whether the value is an extension value.
    pub fn is_ext(&self) -> (r: bool)
        ensures
            r == (self@ is Ext),
    {
        match self {
            Generic::Ext(_, _) => true,
            _ => false,
        }
    }

    /// The type of an extension value.
    pub fn ext_type(&self) -> (r: Option<i8>)
        ensures
            match r {
                Some(ty) => self@ matches Value::Ext(t, _) && t == ty,
                None => !(self@ is Ext),
            },
    {
        match self {
            Generic::Ext(ty, _) => Some(*ty),
            _ => None,
        }
    }

    /// The data of an extension value.
    pub fn ext_data(&self) -> (r: Option<&[u8]>)
        ensures
            match r {
                Some(data) => self@ matches Value::Ext(_, d) && d == data@,
                None => !(self@ is Ext),
            },
    {
        match self {
            Generic::Ext(_, data) => Some(data.as_slice()),
            _ => None,
        }
    }

    /// An extension value of type `ty` that holds `data`.
    pub fn new_ext(ty: i8, data: Vec<u8>) -> (g: Generic)
        ensures
            g@ == Value::Ext(ty, data@),
    {
        Generic::Ext(ty, data)
    }
}

/// A short run of ASCII characters takes as many bytes as it has
/// characters.
proof fn lemma_short_ascii(chars: Seq<char>)
    requires
        chars.len() <= 8,
        is_ascii_chars(chars),
    ensures
        encode_utf8(chars).len() == chars.len(),
{
    is_ascii_chars_encode_utf8(chars);
}

} // verus!
