//! The decoder: reads one tag byte and what belongs to it.

use crate::defs::{
    fixarray, fixmap, fixstr, neg_fixint, pos_fixint, ARRAY16, ARRAY32, BIN16, BIN32, BIN8, EXT16,
    EXT32, EXT8, FALSE, FIXARRAY_MASK, FIXEXT1, FIXEXT16, FIXEXT2, FIXEXT4, FIXEXT8, FIXMAP_MASK,
    FIXSTR_MASK, FLOAT32, FLOAT64, INT16, INT32, INT64, INT8, MAP16, MAP32, NIL, STR16, STR32,
    STR8, TRUE, U16_BYTES, U32_BYTES, U64_BYTES, UINT16, UINT32, UINT64, UINT8,
};
use crate::endian::{
    be_value, lemma_pow256_values, read_i16_be, read_i16_le, read_i32_be, read_i64_be, read_u16_be,
    read_u32_be, read_u64_be, to_signed,
};
use crate::error::{Error, Reason};
use crate::wire::{
    parse_blob, parse_ext, parse_head, parse_text, parse_token, TokenView,
};
use vstd::prelude::*;
use vstd::slice::slice_subrange;
use vstd::string::*;
use vstd::utf8::*;

verus! {

/// `core::str::Utf8Error`, which `core::str::from_utf8` fails with. Nothing
/// is said of what it holds.
#[verifier::external_type_specification]
#[verifier::external_body]
pub struct ExUtf8Error(core::str::Utf8Error);

/// `core::str::from_utf8` succeeds exactly on well-formed UTF-8, and the
/// string it then returns consists of the very bytes it was given.
pub assume_specification[ core::str::from_utf8 ](v: &[u8]) -> (r: Result<
    &str,
    core::str::Utf8Error,
>)
    ensures
        r is Ok <==> valid_utf8(v@),
        r matches Ok(s) ==> s.spec_bytes() == v@,
;

/// What the head of an encoded value says: a whole scalar, or the kind and
/// size of what follows. Floating-point numbers are given by their bit
/// patterns.
#[derive(Debug, Clone, Copy, PartialEq)]
pub enum Token<'a> {
    Unit,
    Bool(bool),
    U8(u8),
    U16(u16),
    U32(u32),
    U64(u64),
    I8(i8),
    I16(i16),
    I32(i32),
    I64(i64),
    F32(u32),
    F64(u64),
    Str(&'a str),
    Bytes(&'a [u8]),
    /// An array; that many elements follow.
    Array(u32),
    /// A map; that many keys, each with its value, follow.
    Dict(u32),
    Ext(i8, &'a [u8]),
}

impl<'a> View for Token<'a> {
    type V = TokenView;

    open spec fn view(&self) -> TokenView {
        match *self {
            Token::Unit => TokenView::Unit,
            Token::Bool(b) => TokenView::Bool(b),
            Token::U8(v) => TokenView::U8(v),
            Token::U16(v) => TokenView::U16(v),
            Token::U32(v) => TokenView::U32(v),
            Token::U64(v) => TokenView::U64(v),
            Token::I8(v) => TokenView::I8(v),
            Token::I16(v) => TokenView::I16(v),
            Token::I32(v) => TokenView::I32(v),
            Token::I64(v) => TokenView::I64(v),
            Token::F32(bits) => TokenView::F32(bits),
            Token::F64(bits) => TokenView::F64(bits),
            Token::Str(s) => TokenView::Str(s@),
            Token::Bytes(b) => TokenView::Bytes(b@),
            Token::Array(n) => TokenView::Array(n as nat),
            Token::Dict(n) => TokenView::Dict(n as nat),
            Token::Ext(ty, data) => TokenView::Ext(ty, data@),
        }
    }
}

/// A decoder over a slice of bytes, which it reads from front to back.
#[derive(Debug)]
pub struct Deserializer<'de> {
    input: &'de [u8],
    position: usize,
}

impl<'de> Deserializer<'de> {
    #[verifier::type_invariant]
    spec fn within(&self) -> bool {
        self.position <= self.input@.len()
    }

    /// The bytes not read yet.
    pub closed spec fn remaining(&self) -> Seq<u8> {
        self.input@.skip(self.position as int)
    }

    /// Create a new Deserializer over the given bytes.
    pub fn new(input: &'de [u8]) -> (de: Deserializer<'de>)
        ensures
            de.remaining() == input@,
    {
        Deserializer { input, position: 0 }
    }

    /// The next `len` bytes, which are thereby read.
    pub fn input(&mut self, len: usize) -> (r: Result<&'de [u8], Error>)
        ensures
            match r {
                Ok(bytes) => {
                    &&& len <= old(self).remaining().len()
                    &&& bytes@ == old(self).remaining().take(len as int)
                    &&& final(self).remaining() == old(self).remaining().skip(len as int)
                },
                Err(e) => {
                    &&& len > old(self).remaining().len()
                    &&& e.reason() == Reason::EndOfStream
                    &&& final(self).remaining() == old(self).remaining()
                },
            },
    {
        proof {
            use_type_invariant(&*self);
        }
        if len > self.input.len() - self.position {
            Err(Error::simple(Reason::EndOfStream))
        } else {
            let start = self.position;
            let bytes = slice_subrange(self.input, start, start + len);
            self.position = start + len;
            assert(bytes@ =~= old(self).remaining().take(len as int));
            assert(self.remaining() =~= old(self).remaining().skip(len as int));
            Ok(bytes)
        }
    }

    /// A byte that stands for a signed number, as that number.
    fn signed_byte(byte: u8) -> (value: i8)
        ensures
            value as int == to_signed(byte as nat, 1),
    {
        proof {
            lemma_pow256_values();
        }
        let pair = [byte, 0u8];
        let wide = read_i16_le(pair.as_slice());
        #[verifier::truncate]
        let value = wide as i8;
        assert(value as int == if wide >= 128 {
            wide - 256
        } else {
            wide as int
        }) by (bit_vector)
            requires
                value == wide as i8,
                0 <= wide < 256,
        ;
        value
    }

    /// Reads a string of `len` bytes.
    fn read_text(&mut self, len: usize) -> (r: Result<Token<'de>, Error>)
        ensures
            match r {
                Ok(token) => parse_text(old(self).remaining(), len as nat) == Ok::<
                    (TokenView, Seq<u8>),
                    Reason,
                >((token@, final(self).remaining())),
                Err(e) => parse_text(old(self).remaining(), len as nat) == Err::<
                    (TokenView, Seq<u8>),
                    Reason,
                >(e.reason()),
            },
    {
        let buf = self.input(len)?;
        match core::str::from_utf8(buf) {
            Ok(text) => {
                proof {
                    encode_utf8_decode_utf8(text@);
                }
                Ok(Token::Str(text))
            },
            Err(_) => Err(Error::simple(Reason::UTF8Error)),
        }
    }

    /// Reads a byte blob of `len` bytes.
    fn read_blob(&mut self, len: usize) -> (r: Result<Token<'de>, Error>)
        ensures
            match r {
                Ok(token) => parse_blob(old(self).remaining(), len as nat) == Ok::<
                    (TokenView, Seq<u8>),
                    Reason,
                >((token@, final(self).remaining())),
                Err(e) => parse_blob(old(self).remaining(), len as nat) == Err::<
                    (TokenView, Seq<u8>),
                    Reason,
                >(e.reason()),
            },
    {
        let buf = self.input(len)?;
        Ok(Token::Bytes(buf))
    }

    /// Reads the type byte of an extension value and its `len` bytes of
    /// data.
    fn read_ext(&mut self, len: usize) -> (r: Result<Token<'de>, Error>)
        ensures
            match r {
                Ok(token) => parse_ext(old(self).remaining(), len as nat) == Ok::<
                    (TokenView, Seq<u8>),
                    Reason,
                >((token@, final(self).remaining())),
                Err(e) => parse_ext(old(self).remaining(), len as nat) == Err::<
                    (TokenView, Seq<u8>),
                    Reason,
                >(e.reason()),
            },
    {
        let buf = self.input(1)?;
        let ty = Self::signed_byte(buf[0]);
        let data = self.input(len)?;
        Ok(Token::Ext(ty, data))
    }

    /// Reads what belongs to the tag byte `ty`, which was read before.
    pub fn parse_as(&mut self, ty: u8) -> (r: Result<Token<'de>, Error>)
        ensures
            match r {
                Ok(token) => parse_head(ty, old(self).remaining()) == Ok::<
                    (TokenView, Seq<u8>),
                    Reason,
                >((token@, final(self).remaining())),
                Err(e) => parse_head(ty, old(self).remaining()) == Err::<
                    (TokenView, Seq<u8>),
                    Reason,
                >(e.reason()),
            },
    {
        proof {
            lemma_pow256_values();
            reveal_with_fuel(be_value, 2);
        }
        if pos_fixint(ty) {
            Ok(Token::U8(ty))
        } else if neg_fixint(ty) {
            Ok(Token::I8(Self::signed_byte(ty)))
        } else if fixmap(ty) {
            let size = ty & !FIXMAP_MASK;
            assert(size == ty - 0x80) by (bit_vector)
                requires
                    size == ty & !0x80u8,
                    0x80 <= ty <= 0x8f,
            ;
            Ok(Token::Dict(size as u32))
        } else if fixarray(ty) {
            let size = ty & !FIXARRAY_MASK;
            assert(size == ty - 0x90) by (bit_vector)
                requires
                    size == ty & !0x90u8,
                    0x90 <= ty <= 0x9f,
            ;
            Ok(Token::Array(size as u32))
        } else if fixstr(ty) {
            let size = ty & !FIXSTR_MASK;
            assert(size == ty - 0xa0) by (bit_vector)
                requires
                    size == ty & !0xa0u8,
                    0xa0 <= ty <= 0xbf,
            ;
            self.read_text(size as usize)
        } else if ty == NIL {
            Ok(Token::Unit)
        } else if ty == FALSE {
            Ok(Token::Bool(false))
        } else if ty == TRUE {
            Ok(Token::Bool(true))
        } else if ty == BIN8 {
            let buf = self.input(1)?;
            self.read_blob(buf[0] as usize)
        } else if ty == BIN16 {
            let buf = self.input(U16_BYTES)?;
            let size = read_u16_be(buf) as usize;
            self.read_blob(size)
        } else if ty == BIN32 {
            let buf = self.input(U32_BYTES)?;
            let size = read_u32_be(buf) as usize;
            self.read_blob(size)
        } else if ty == EXT8 {
            let buf = self.input(1)?;
            let size = buf[0] as usize;
            self.read_ext(size)
        } else if ty == EXT16 {
            let buf = self.input(U16_BYTES)?;
            let size = read_u16_be(buf) as usize;
            self.read_ext(size)
        } else if ty == EXT32 {
            let buf = self.input(U32_BYTES)?;
            let size = read_u32_be(buf) as usize;
            self.read_ext(size)
        } else if ty == FLOAT32 {
            let buf = self.input(U32_BYTES)?;
            Ok(Token::F32(read_u32_be(buf)))
        } else if ty == FLOAT64 {
            let buf = self.input(U64_BYTES)?;
            Ok(Token::F64(read_u64_be(buf)))
        } else if ty == UINT8 {
            let buf = self.input(1)?;
            Ok(Token::U8(buf[0]))
        } else if ty == UINT16 {
            let buf = self.input(U16_BYTES)?;
            Ok(Token::U16(read_u16_be(buf)))
        } else if ty == UINT32 {
            let buf = self.input(U32_BYTES)?;
            Ok(Token::U32(read_u32_be(buf)))
        } else if ty == UINT64 {
            let buf = self.input(U64_BYTES)?;
            Ok(Token::U64(read_u64_be(buf)))
        } else if ty == INT8 {
            let buf = self.input(1)?;
            Ok(Token::I8(Self::signed_byte(buf[0])))
        } else if ty == INT16 {
            let buf = self.input(U16_BYTES)?;
            Ok(Token::I16(read_i16_be(buf)))
        } else if ty == INT32 {
            let buf = self.input(U32_BYTES)?;
            Ok(Token::I32(read_i32_be(buf)))
        } else if ty == INT64 {
            let buf = self.input(U64_BYTES)?;
            Ok(Token::I64(read_i64_be(buf)))
        } else if ty == FIXEXT1 {
            self.read_ext(1)
        } else if ty == FIXEXT2 {
            self.read_ext(2)
        } else if ty == FIXEXT4 {
            self.read_ext(4)
        } else if ty == FIXEXT8 {
            self.read_ext(8)
        } else if ty == FIXEXT16 {
            self.read_ext(16)
        } else if ty == STR8 {
            let buf = self.input(1)?;
            self.read_text(buf[0] as usize)
        } else if ty == STR16 {
            let buf = self.input(U16_BYTES)?;
            let size = read_u16_be(buf) as usize;
            self.read_text(size)
        } else if ty == STR32 {
            let buf = self.input(U32_BYTES)?;
            let size = read_u32_be(buf) as usize;
            self.read_text(size)
        } else if ty == ARRAY16 {
            let buf = self.input(U16_BYTES)?;
            Ok(Token::Array(read_u16_be(buf) as u32))
        } else if ty == ARRAY32 {
            let buf = self.input(U32_BYTES)?;
            Ok(Token::Array(read_u32_be(buf)))
        } else if ty == MAP16 {
            let buf = self.input(U16_BYTES)?;
            Ok(Token::Dict(read_u16_be(buf) as u32))
        } else if ty == MAP32 {
            let buf = self.input(U32_BYTES)?;
            Ok(Token::Dict(read_u32_be(buf)))
        } else {
            Err(Error::simple(Reason::BadType))
        }
    }

    /// Decides whether an optional value is present. The unit value stands
    /// for an absent one and is read; before anything else nothing is read,
    /// and the value that is present comes next.
    pub fn deserialize_option(&mut self) -> (r: Result<bool, Error>)
        ensures
            match r {
                Ok(present) => {
                    &&& old(self).remaining().len() > 0
                    &&& present == (old(self).remaining()[0] != NIL)
                    &&& final(self).remaining() == if present {
                        old(self).remaining()
                    } else {
                        old(self).remaining().skip(1)
                    }
                },
                Err(e) => {
                    &&& old(self).remaining().len() == 0
                    &&& e.reason() == Reason::EndOfStream
                    &&& final(self).remaining() == old(self).remaining()
                },
            },
    {
        proof {
            use_type_invariant(&*self);
        }
        if self.position >= self.input.len() {
            Err(Error::simple(Reason::EndOfStream))
        } else if self.input[self.position] == NIL {
            self.position += 1;
            assert(self.remaining() =~= old(self).remaining().skip(1));
            Ok(false)
        } else {
            Ok(true)
        }
    }

    /// Reads one tag byte and what belongs to it.
    pub fn deserialize_any(&mut self) -> (r: Result<Token<'de>, Error>)
        ensures
            match r {
                Ok(token) => parse_token(old(self).remaining()) == Ok::<
                    (TokenView, Seq<u8>),
                    Reason,
                >((token@, final(self).remaining())),
                Err(e) => parse_token(old(self).remaining()) == Err::<
                    (TokenView, Seq<u8>),
                    Reason,
                >(e.reason()),
            },
    {
        let buf = self.input(1)?;
        self.parse_as(buf[0])
    }
}

} // verus!
