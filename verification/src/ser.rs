//! The encoder for scalars, strings, byte blobs and extension values.

use crate::defs::{
    BIN16, BIN32, BIN8, EXT16, EXT32, EXT8, FALSE, FIXARRAY_MASK, FIXEXT1, FIXEXT16, FIXEXT2,
    FIXEXT4, FIXEXT8, FIXINT_MAX, FIXINT_MIN, FIXSTR_MASK, FLOAT32, FLOAT64, INT16, INT32, INT64,
    INT8, MAX_ARRAY32, MAX_BIN16, MAX_BIN32, MAX_BIN8, MAX_EXT16, MAX_EXT32, MAX_EXT8, MAX_FIXSTR,
    MAX_STR16, MAX_STR32, MAX_STR8, NIL, STR16, STR32, STR8, TRUE, UINT16, UINT32, UINT64, UINT8,
};
use crate::endian::{
    lemma_pow256_values, write_i16_be, write_i16_le, write_i32_be, write_i64_be, write_u16_be,
    write_u32_be, write_u64_be,
};
use crate::error::{Error, Reason};
use crate::generic::Generic;
use crate::map_serializer::{MapSerializer, MapState};
use crate::map_variant_serializer::{MapVariantSerializer, MapVariantState};
use crate::seq_serializer::{SeqSerializer, SeqState};
use crate::wire::{
    array_header, encodable, encode_bin, encode_bool, encode_ext, encode_f32, encode_f64,
    encode_nil, encode_signed, encode_str, encode_unsigned, encode_value, max_len, variant_header,
};
use vstd::prelude::*;
use vstd::string::*;
use vstd::utf8::*;

verus! {

/// An encoder that appends to a byte buffer of its own.
#[derive(Debug)]
pub struct Serializer {
    output: Vec<u8>,
}

impl View for Serializer {
    type V = Seq<u8>;

    /// The bytes written so far.
    closed spec fn view(&self) -> Seq<u8> {
        self.output@
    }
}

impl Serializer {
    /// An encoder that has written nothing yet.
    pub fn new() -> (s: Serializer)
        ensures
            s@ == Seq::<u8>::empty(),
    {
        Serializer { output: Vec::new() }
    }

    /// An encoder that goes on after the bytes of `output`.
    pub fn with_output(output: Vec<u8>) -> (s: Serializer)
        ensures
            s@ == output@,
    {
        Serializer { output }
    }

    /// The bytes written so far.
    pub fn as_slice(&self) -> (bytes: &[u8])
        ensures
            bytes@ == self@,
    {
        self.output.as_slice()
    }

    /// Gives up the encoder for the bytes it has written.
    pub fn into_bytes(self) -> (bytes: Vec<u8>)
        ensures
            bytes@ == self@,
    {
        self.output
    }

    /// Appends `bytes` as they are.
    pub fn write(&mut self, bytes: &[u8])
        ensures
            final(self)@ == old(self)@ + bytes@,
    {
        self.output.extend_from_slice(bytes);
        assert(self.output@ =~= old(self).output@ + bytes@);
    }

    /// Exchanges the bytes written so far for those of `other`.
    pub fn swap_bytes(&mut self, other: &mut Vec<u8>)
        ensures
            final(self)@ == old(other)@,
            final(other)@ == old(self)@,
    {
        core::mem::swap(&mut self.output, other);
    }

    fn put(&mut self, byte: u8)
        ensures
            final(self)@ == old(self)@.push(byte),
    {
        self.output.push(byte);
    }

    /// Writes a signed integer in its shortest form.
    pub fn serialize_signed(&mut self, value: i64)
        ensures
            final(self)@ == old(self)@ + encode_signed(value),
    {
        proof {
            lemma_pow256_values();
        }
        if value >= FIXINT_MIN as i64 && value <= FIXINT_MAX as i64 {
            let buf = write_i16_le(value as i16);
            self.put(buf[0]);
        } else if value >= i8::MIN as i64 && value <= i8::MAX as i64 {
            let buf = write_i16_le(value as i16);
            self.put(INT8);
            self.put(buf[0]);
        } else if value >= 0 && value <= u8::MAX as i64 {
            let buf = write_i16_le(value as i16);
            self.put(UINT8);
            self.put(buf[0]);
        } else if value >= i16::MIN as i64 && value <= i16::MAX as i64 {
            let buf = write_i16_be(value as i16);
            self.put(INT16);
            self.write(buf.as_slice());
        } else if value >= 0 && value <= u16::MAX as i64 {
            let buf = write_u16_be(value as u16);
            self.put(UINT16);
            self.write(buf.as_slice());
        } else if value >= i32::MIN as i64 && value <= i32::MAX as i64 {
            let buf = write_i32_be(value as i32);
            self.put(INT32);
            self.write(buf.as_slice());
        } else if value >= 0 && value <= u32::MAX as i64 {
            let buf = write_u32_be(value as u32);
            self.put(UINT32);
            self.write(buf.as_slice());
        } else {
            let buf = write_i64_be(value);
            self.put(INT64);
            self.write(buf.as_slice());
        }
        assert(self@ =~= old(self)@ + encode_signed(value));
    }

    /// Writes an unsigned integer in its shortest form.
    pub fn serialize_unsigned(&mut self, value: u64)
        ensures
            final(self)@ == old(self)@ + encode_unsigned(value),
    {
        if value <= FIXINT_MAX as u64 {
            self.put(value as u8);
        } else if value <= u8::MAX as u64 {
            self.put(UINT8);
            self.put(value as u8);
        } else if value <= u16::MAX as u64 {
            let buf = write_u16_be(value as u16);
            self.put(UINT16);
            self.write(buf.as_slice());
        } else if value <= u32::MAX as u64 {
            let buf = write_u32_be(value as u32);
            self.put(UINT32);
            self.write(buf.as_slice());
        } else {
            let buf = write_u64_be(value);
            self.put(UINT64);
            self.write(buf.as_slice());
        }
        assert(self@ =~= old(self)@ + encode_unsigned(value));
    }

    /// Writes a boolean.
    pub fn serialize_bool(&mut self, value: bool)
        ensures
            final(self)@ == old(self)@ + encode_bool(value),
    {
        if value {
            self.put(TRUE);
        } else {
            self.put(FALSE);
        }
        assert(self@ =~= old(self)@ + encode_bool(value));
    }

    /// Writes a 32-bit float, given by its bit pattern, at full width.
    pub fn serialize_f32(&mut self, bits: u32)
        ensures
            final(self)@ == old(self)@ + encode_f32(bits),
    {
        let buf = write_u32_be(bits);
        self.put(FLOAT32);
        self.write(buf.as_slice());
        assert(self@ =~= old(self)@ + encode_f32(bits));
    }

    /// Writes a 64-bit float, given by its bit pattern, at full width.
    pub fn serialize_f64(&mut self, bits: u64)
        ensures
            final(self)@ == old(self)@ + encode_f64(bits),
    {
        let buf = write_u64_be(bits);
        self.put(FLOAT64);
        self.write(buf.as_slice());
        assert(self@ =~= old(self)@ + encode_f64(bits));
    }

    /// Writes the unit value.
    pub fn serialize_unit(&mut self)
        ensures
            final(self)@ == old(self)@ + encode_nil(),
    {
        self.put(NIL);
        assert(self@ =~= old(self)@ + encode_nil());
    }

    /// Writes a byte blob, or nothing at all where it is longer than the
    /// widest length field can say.
    pub fn serialize_bytes(&mut self, value: &[u8]) -> (r: Result<(), Error>)
        ensures
            match r {
                Ok(()) => {
                    &&& value@.len() <= max_len()
                    &&& final(self)@ == old(self)@ + encode_bin(value@)
                },
                Err(e) => {
                    &&& value@.len() > max_len()
                    &&& e.reason() == Reason::TooBig
                    &&& final(self)@ == old(self)@
                },
            },
    {
        let len = value.len();
        if len <= MAX_BIN8 {
            self.put(BIN8);
            self.put(len as u8);
        } else if len <= MAX_BIN16 {
            let buf = write_u16_be(len as u16);
            self.put(BIN16);
            self.write(buf.as_slice());
        } else if len <= MAX_BIN32 {
            let buf = write_u32_be(len as u32);
            self.put(BIN32);
            self.write(buf.as_slice());
        } else {
            return Err(Error::simple(Reason::TooBig));
        }
        self.write(value);
        assert(self@ =~= old(self)@ + encode_bin(value@));
        Ok(())
    }

    /// Writes a string, or nothing at all where its UTF-8 form is longer
    /// than the widest length field can say.
    pub fn serialize_str(&mut self, value: &str) -> (r: Result<(), Error>)
        ensures
            match r {
                Ok(()) => {
                    &&& encode_utf8(value@).len() <= max_len()
                    &&& final(self)@ == old(self)@ + encode_str(value@)
                },
                Err(e) => {
                    &&& encode_utf8(value@).len() > max_len()
                    &&& e.reason() == Reason::TooBig
                    &&& final(self)@ == old(self)@
                },
            },
    {
        let bytes = value.as_bytes();
        let len = bytes.len();
        if len <= MAX_FIXSTR {
            let short = len as u8;
            assert(short | 0xa0u8 == 0xa0u8 + short) by (bit_vector)
                requires
                    short <= 31,
            ;
            self.put(short | FIXSTR_MASK);
        } else if len <= MAX_STR8 {
            self.put(STR8);
            self.put(len as u8);
        } else if len <= MAX_STR16 {
            let buf = write_u16_be(len as u16);
            self.put(STR16);
            self.write(buf.as_slice());
        } else if len <= MAX_STR32 {
            let buf = write_u32_be(len as u32);
            self.put(STR32);
            self.write(buf.as_slice());
        } else {
            return Err(Error::simple(Reason::TooBig));
        }
        self.write(bytes);
        assert(self@ =~= old(self)@ + encode_str(value@));
        Ok(())
    }

    /// Writes a character as a string of that one character.
    pub fn serialize_char(&mut self, value: char)
        ensures
            final(self)@ == old(self)@ + encode_str(seq![value]),
    {
        let mut string = String::new();
        push_char(&mut string, value);
        assert(string@ =~= seq![value]);
        proof {
            lemma_char_is_short(value);
        }
        let r = self.serialize_str(string.as_str());
        assert(r is Ok);
    }

    /// Writes an extension value: the tag, the length unless the tag
    /// fixes it, the type, then the data. Writes nothing at all where the
    /// data is longer than the widest length field can say.
    pub fn serialize_ext(&mut self, ty: i8, data: &[u8]) -> (r: Result<(), Error>)
        ensures
            match r {
                Ok(()) => {
                    &&& data@.len() <= max_len()
                    &&& final(self)@ == old(self)@ + encode_ext(ty, data@)
                },
                Err(e) => {
                    &&& data@.len() > max_len()
                    &&& e.reason() == Reason::TooBig
                    &&& final(self)@ == old(self)@
                },
            },
    {
        proof {
            lemma_pow256_values();
        }
        let len = data.len();
        let ty_byte = write_i16_le(ty as i16)[0];
        if len == 1 {
            self.put(FIXEXT1);
        } else if len == 2 {
            self.put(FIXEXT2);
        } else if len == 4 {
            self.put(FIXEXT4);
        } else if len == 8 {
            self.put(FIXEXT8);
        } else if len == 16 {
            self.put(FIXEXT16);
        } else if len <= MAX_EXT8 {
            self.put(EXT8);
            self.put(len as u8);
        } else if len <= MAX_EXT16 {
            let buf = write_u16_be(len as u16);
            self.put(EXT16);
            self.write(buf.as_slice());
        } else if len <= MAX_EXT32 {
            let buf = write_u32_be(len as u32);
            self.put(EXT32);
            self.write(buf.as_slice());
        } else {
            return Err(Error::simple(Reason::TooBig));
        }
        self.put(ty_byte);
        self.write(data);
        assert(self@ =~= old(self)@ + encode_ext(ty, data@));
        Ok(())
    }

    /// Writes an 8-bit signed integer.
    pub fn serialize_i8(&mut self, value: i8)
        ensures
            final(self)@ == old(self)@ + encode_signed(value as i64),
    {
        self.serialize_signed(value as i64)
    }

    /// Writes a 16-bit signed integer.
    pub fn serialize_i16(&mut self, value: i16)
        ensures
            final(self)@ == old(self)@ + encode_signed(value as i64),
    {
        self.serialize_signed(value as i64)
    }

    /// Writes a 32-bit signed integer.
    pub fn serialize_i32(&mut self, value: i32)
        ensures
            final(self)@ == old(self)@ + encode_signed(value as i64),
    {
        self.serialize_signed(value as i64)
    }

    /// Writes a 64-bit signed integer.
    pub fn serialize_i64(&mut self, value: i64)
        ensures
            final(self)@ == old(self)@ + encode_signed(value),
    {
        self.serialize_signed(value)
    }

    /// Writes an 8-bit unsigned integer.
    pub fn serialize_u8(&mut self, value: u8)
        ensures
            final(self)@ == old(self)@ + encode_unsigned(value as u64),
    {
        self.serialize_unsigned(value as u64)
    }

    /// Writes a 16-bit unsigned integer.
    pub fn serialize_u16(&mut self, value: u16)
        ensures
            final(self)@ == old(self)@ + encode_unsigned(value as u64),
    {
        self.serialize_unsigned(value as u64)
    }

    /// Writes a 32-bit unsigned integer.
    pub fn serialize_u32(&mut self, value: u32)
        ensures
            final(self)@ == old(self)@ + encode_unsigned(value as u64),
    {
        self.serialize_unsigned(value as u64)
    }

    /// Writes a 64-bit unsigned integer.
    pub fn serialize_u64(&mut self, value: u64)
        ensures
            final(self)@ == old(self)@ + encode_unsigned(value),
    {
        self.serialize_unsigned(value)
    }

    /// Writes a structure without fields: the unit value.
    pub fn serialize_unit_struct(&mut self)
        ensures
            final(self)@ == old(self)@ + encode_nil(),
    {
        self.serialize_unit()
    }

    /// Writes the absence of an optional value: the unit value.
    pub fn serialize_none(&mut self)
        ensures
            final(self)@ == old(self)@ + encode_nil(),
    {
        self.serialize_unit()
    }

    /// Writes an optional value that is present: the value itself.
    pub fn serialize_some(&mut self, value: &Generic, pack: bool) -> (r: Result<(), Error>)
        ensures
            match r {
                Ok(()) => encodable(value@) && final(self)@ == old(self)@ + encode_value(
                    value@,
                    pack,
                ),
                Err(e) => {
                    &&& !encodable(value@)
                    &&& e.reason() == Reason::TooBig
                    &&& old(self)@.is_prefix_of(final(self)@)
                },
            },
    {
        value.encode(self, pack)
    }

    /// Opens an array. Where `len` says how many elements will come, the
    /// header is written now.
    pub fn serialize_seq(&mut self, len: Option<usize>) -> (r: Result<SeqSerializer, Error>)
        ensures
            match r {
                Ok(seq) => {
                    &&& seq@.count == 0
                    &&& seq@.buffer == Seq::<u8>::empty()
                    &&& match len {
                        Some(n) => {
                            &&& n <= max_len()
                            &&& seq@.size == Some(n as nat)
                            &&& final(self)@ == old(self)@ + array_header(n as nat)
                        },
                        None => seq@.size is None && final(self)@ == old(self)@,
                    }
                },
                Err(e) => {
                    &&& len matches Some(n) && n > max_len()
                    &&& e.reason() == Reason::TooBig
                    &&& final(self)@ == old(self)@
                },
            },
    {
        let mut seq = SeqSerializer::new();
        seq.hint_size(len, self)?;
        Ok(seq)
    }

    /// Opens an array of `size` elements.
    pub fn serialize_seq_fixed_size(&mut self, size: usize) -> (r: Result<SeqSerializer, Error>)
        ensures
            match r {
                Ok(seq) => {
                    &&& size <= max_len()
                    &&& seq@ == (SeqState {
                        count: 0,
                        size: Some(size as nat),
                        buffer: Seq::empty(),
                    })
                    &&& final(self)@ == old(self)@ + array_header(size as nat)
                },
                Err(e) => {
                    &&& size > max_len()
                    &&& e.reason() == Reason::TooBig
                    &&& final(self)@ == old(self)@
                },
            },
    {
        self.serialize_seq(Some(size))
    }

    /// Opens a tuple of `len` elements: an array of that size.
    pub fn serialize_tuple(&mut self, len: usize) -> (r: Result<SeqSerializer, Error>)
        ensures
            match r {
                Ok(seq) => {
                    &&& len <= max_len()
                    &&& seq@ == (SeqState { count: 0, size: Some(len as nat), buffer: Seq::empty() })
                    &&& final(self)@ == old(self)@ + array_header(len as nat)
                },
                Err(e) => {
                    &&& len > max_len()
                    &&& e.reason() == Reason::TooBig
                    &&& final(self)@ == old(self)@
                },
            },
    {
        self.serialize_seq_fixed_size(len)
    }

    /// Opens a structure of `len` unnamed fields: an array of that size.
    pub fn serialize_tuple_struct(&mut self, len: usize) -> (r: Result<SeqSerializer, Error>)
        ensures
            match r {
                Ok(seq) => {
                    &&& len <= max_len()
                    &&& seq@ == (SeqState { count: 0, size: Some(len as nat), buffer: Seq::empty() })
                    &&& final(self)@ == old(self)@ + array_header(len as nat)
                },
                Err(e) => {
                    &&& len > max_len()
                    &&& e.reason() == Reason::TooBig
                    &&& final(self)@ == old(self)@
                },
            },
    {
        self.serialize_tuple(len)
    }

    /// Writes a wrapper of one field: an array of that one value.
    pub fn serialize_newtype_struct(&mut self, value: &Generic, pack: bool) -> (r: Result<(), Error>)
        ensures
            match r {
                Ok(()) => encodable(value@) && final(self)@ == old(self)@ + array_header(1)
                    + encode_value(value@, pack),
                Err(e) => {
                    &&& !encodable(value@)
                    &&& e.reason() == Reason::TooBig
                    &&& old(self)@.is_prefix_of(final(self)@)
                },
            },
    {
        let mut seq = self.serialize_tuple_struct(1)?;
        seq.serialize_element(value, pack, self)?;
        seq.finish(self)
    }

    /// Opens a map. Its keys and values are kept back until it ends,
    /// whether or not `len` says how many will come.
    pub fn serialize_map(&mut self, len: Option<usize>) -> (map: MapSerializer)
        ensures
            map@ == (MapState { size: 0, buffer: Seq::empty() }),
            final(self)@ == old(self)@,
    {
        MapSerializer::new()
    }

    /// Opens a structure of named fields: a map keyed by their names.
    pub fn serialize_struct(&mut self, len: usize) -> (map: MapSerializer)
        ensures
            map@ == (MapState { size: 0, buffer: Seq::empty() }),
            final(self)@ == old(self)@,
    {
        self.serialize_map(Some(len))
    }

    /// Writes what opens a variant: the header of a sequence of two, then
    /// the index. The payload is to follow.
    pub fn open_variant(&mut self, index: usize)
        ensures
            final(self)@ == old(self)@ + variant_header(index as nat),
    {
        assert(2u8 | 0x90u8 == 0x92u8) by (bit_vector);
        self.put(2u8 | FIXARRAY_MASK);
        self.serialize_unsigned(index as u64);
        assert(self@ =~= old(self)@ + variant_header(index as nat));
    }

    /// Writes a variant without a payload: its index, and the unit value
    /// in the place of the payload.
    pub fn serialize_unit_variant(&mut self, index: usize)
        ensures
            final(self)@ == old(self)@ + variant_header(index as nat) + encode_nil(),
    {
        self.open_variant(index);
        self.serialize_unit();
    }

    /// Writes a variant whose payload is one value: its index, then the
    /// value.
    pub fn serialize_newtype_variant(&mut self, index: usize, value: &Generic, pack: bool) -> (r:
        Result<(), Error>)
        ensures
            match r {
                Ok(()) => encodable(value@) && final(self)@ == old(self)@ + variant_header(
                    index as nat,
                ) + encode_value(value@, pack),
                Err(e) => {
                    &&& !encodable(value@)
                    &&& e.reason() == Reason::TooBig
                    &&& old(self)@.is_prefix_of(final(self)@)
                },
            },
    {
        self.open_variant(index);
        value.encode(self, pack)
    }

    /// Opens a variant whose payload is a tuple of `len` elements: writes
    /// its index and the header of the tuple. Writes nothing where `len`
    /// is more than a header can say.
    pub fn serialize_tuple_variant(&mut self, index: usize, len: usize) -> (r: Result<
        SeqSerializer,
        Error,
    >)
        ensures
            match r {
                Ok(seq) => {
                    &&& len <= max_len()
                    &&& seq@ == (SeqState { count: 0, size: Some(len as nat), buffer: Seq::empty() })
                    &&& final(self)@ == old(self)@ + variant_header(index as nat) + array_header(
                        len as nat,
                    )
                },
                Err(e) => {
                    &&& len > max_len()
                    &&& e.reason() == Reason::TooBig
                    &&& final(self)@ == old(self)@
                },
            },
    {
        if len > MAX_ARRAY32 {
            return Err(Error::simple(Reason::TooBig));
        }
        self.open_variant(index);
        self.serialize_tuple(len)
    }

    /// Opens a variant whose payload is a structure of named fields.
    /// Nothing is written before the variant ends.
    pub fn serialize_struct_variant(&mut self, index: usize) -> (map: MapVariantSerializer)
        ensures
            map@ == (MapVariantState { size: 0, variant: index as nat, buffer: Seq::empty() }),
            final(self)@ == old(self)@,
    {
        MapVariantSerializer::new(index)
    }
}

/// `String::push` appends the character to the end of the string.
#[verifier::external_body]
fn push_char(string: &mut String, ch: char)
    ensures
        final(string)@ == old(string)@.push(ch),
{
    string.push(ch);
}

/// One character takes at most four bytes in UTF-8.
proof fn lemma_char_is_short(ch: char)
    ensures
        encode_utf8(seq![ch]).len() <= 4,
{
    let chars = seq![ch];
    assert(chars.drop_first() =~= Seq::<char>::empty());
    reveal_with_fuel(encode_utf8, 2);
}

} // verus!
