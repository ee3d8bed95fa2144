//! The visitor for variants, used to decode tagged unions.

use crate::de::{Deserializer, Token};
use crate::error::{Error, Reason};
use crate::generic::Generic;
use crate::seq_visitor::SeqVisitor;
use crate::wire::{parse_token, parse_value, parse_variant_index, token_int, TokenView};
use vstd::prelude::*;

verus! {

/// Decodes one variant of a tagged union: a sequence of two elements, the
/// index of the variant and its payload. The names of the variants come
/// from the caller, in the order of their indices. Of the two elements,
/// each call that reads one takes it off the count of those still to come.
#[derive(Debug)]
pub struct VariantVisitor<'a> {
    variants: &'a [&'a str],
    count: u8,
}

/// The integer that a token carries, if it carries one.
fn int_of_token(token: &Token) -> (value: Option<i128>)
    ensures
        match value {
            Some(v) => token_int(token@) == Some(v as int),
            None => token_int(token@) is None,
        },
{
    match *token {
        Token::U8(v) => Some(v as i128),
        Token::U16(v) => Some(v as i128),
        Token::U32(v) => Some(v as i128),
        Token::U64(v) => Some(v as i128),
        Token::I8(v) => Some(v as i128),
        Token::I16(v) => Some(v as i128),
        Token::I32(v) => Some(v as i128),
        Token::I64(v) => Some(v as i128),
        _ => None,
    }
}

impl<'a> VariantVisitor<'a> {
    #[verifier::type_invariant]
    spec fn within(&self) -> bool {
        self.count <= 2
    }

    /// The names of the variants, in the order of their indices.
    pub closed spec fn variants(&self) -> Seq<&'a str> {
        self.variants@
    }

    /// How many of the two elements are still to be read.
    pub closed spec fn remaining(&self) -> nat {
        self.count as nat
    }

    /// A visitor that has read nothing yet.
    pub fn new(variants: &'a [&'a str]) -> (v: VariantVisitor<'a>)
        ensures
            v.variants() == variants@,
            v.remaining() == 2,
    {
        VariantVisitor { variants, count: 2 }
    }

    /// Takes one element off the count, where one is left; where none is,
    /// the stream has ended.
    pub fn advance(&mut self) -> (r: Result<(), Error>)
        ensures
            final(self).variants() == old(self).variants(),
            match r {
                Ok(()) => old(self).remaining() > 0 && final(self).remaining() == old(
                    self,
                ).remaining() - 1,
                Err(e) => {
                    &&& old(self).remaining() == 0
                    &&& final(self).remaining() == 0
                    &&& e.reason() == Reason::EndOfStream
                },
            },
    {
        if self.count == 0 {
            Err(Error::simple(Reason::EndOfStream))
        } else {
            proof {
                use_type_invariant(&*self);
            }
            self.count -= 1;
            Ok(())
        }
    }

    /// Reads what opens the variant, and resolves the index to the name of
    /// the variant.
    pub fn variant_seed(&mut self, de: &mut Deserializer) -> (r: Result<(usize, &'a str), Error>)
        ensures
            final(self).variants() == old(self).variants(),
            match r {
                Ok((index, name)) => {
                    &&& old(self).remaining() > 0
                    &&& final(self).remaining() == old(self).remaining() - 1
                    &&& parse_variant_index(old(de).remaining(), old(self).variants().len()) == Ok::<
                        (nat, Seq<u8>),
                        Reason,
                    >((index as nat, final(de).remaining()))
                    &&& index < old(self).variants().len()
                    &&& name == old(self).variants()[index as int]
                },
                Err(e) => if old(self).remaining() == 0 {
                    e.reason() == Reason::EndOfStream && final(self).remaining() == 0
                } else {
                    &&& final(self).remaining() == old(self).remaining() - 1
                    &&& parse_variant_index(old(de).remaining(), old(self).variants().len()) == Err::<
                        (nat, Seq<u8>),
                        Reason,
                    >(e.reason())
                },
            },
    {
        self.advance()?;
        // the variant comes as a sequence of two elements
        let len = match de.deserialize_any()? {
            Token::Array(len) => len,
            _ => {
                return Err(Error::simple(Reason::BadType));
            },
        };
        if len != 2 {
            return Err(Error::simple(Reason::BadLength));
        }
        // the first of them is the index of the variant
        let token = de.deserialize_any()?;
        let variant_index = match int_of_token(&token) {
            Some(index) => index,
            None => {
                return Err(Error::simple(Reason::BadType));
            },
        };
        // resolve that to the name of the variant
        if variant_index < 0 || variant_index >= self.variants.len() as i128 {
            return Err(Error::simple(Reason::BadVariant));
        }
        let index = variant_index as usize;
        Ok((index, self.variants[index]))
    }

    /// Reads the payload of a variant that has none: the unit value.
    pub fn unit_variant(&mut self, de: &mut Deserializer) -> (r: Result<(), Error>)
        ensures
            final(self).variants() == old(self).variants(),
            match r {
                Ok(()) => {
                    &&& old(self).remaining() > 0
                    &&& final(self).remaining() == old(self).remaining() - 1
                    &&& parse_token(old(de).remaining()) == Ok::<(TokenView, Seq<u8>), Reason>(
                        (TokenView::Unit, final(de).remaining()),
                    )
                },
                Err(e) => if old(self).remaining() == 0 {
                    e.reason() == Reason::EndOfStream && final(self).remaining() == 0
                } else {
                    &&& final(self).remaining() == old(self).remaining() - 1
                    &&& match parse_token(old(de).remaining()) {
                        Err(reason) => e.reason() == reason,
                        Ok((token, _)) => !(token is Unit) && e.reason() == Reason::BadType,
                    }
                },
            },
    {
        self.advance()?;
        match de.deserialize_any()? {
            Token::Unit => Ok(()),
            _ => Err(Error::simple(Reason::BadType)),
        }
    }

    /// Reads the payload of a variant that holds one value.
    pub fn newtype_variant(&mut self, de: &mut Deserializer) -> (r: Result<Generic, Error>)
        ensures
            final(self).variants() == old(self).variants(),
            match r {
                Ok(payload) => {
                    &&& old(self).remaining() > 0
                    &&& final(self).remaining() == old(self).remaining() - 1
                    &&& parse_value(old(de).remaining()) matches Ok((value, rest))
                    &&& payload@ == value
                    &&& final(de).remaining() == rest
                },
                Err(e) => if old(self).remaining() == 0 {
                    e.reason() == Reason::EndOfStream && final(self).remaining() == 0
                } else {
                    &&& final(self).remaining() == old(self).remaining() - 1
                    &&& parse_value(old(de).remaining()) matches Err(reason) && e.reason() == reason
                },
            },
    {
        self.advance()?;
        Generic::deserialize(de)
    }

    /// Opens the payload of a variant that holds a tuple: reads the header
    /// of the tuple, and gives the visitor for its elements.
    pub fn tuple_variant(&mut self, de: &mut Deserializer) -> (r: Result<SeqVisitor, Error>)
        ensures
            final(self).variants() == old(self).variants(),
            match r {
                Ok(seq) => {
                    &&& old(self).remaining() > 0
                    &&& final(self).remaining() == old(self).remaining() - 1
                    &&& parse_token(old(de).remaining()) == Ok::<(TokenView, Seq<u8>), Reason>(
                        (TokenView::Array(seq@), final(de).remaining()),
                    )
                },
                Err(e) => if old(self).remaining() == 0 {
                    e.reason() == Reason::EndOfStream && final(self).remaining() == 0
                } else {
                    &&& final(self).remaining() == old(self).remaining() - 1
                    &&& match parse_token(old(de).remaining()) {
                        Err(reason) => e.reason() == reason,
                        Ok((token, _)) => !(token is Array) && e.reason() == Reason::BadType,
                    }
                },
            },
    {
        self.advance()?;
        match de.deserialize_any()? {
            Token::Array(len) => Ok(SeqVisitor::new(len as u64)),
            _ => Err(Error::simple(Reason::BadType)),
        }
    }

    /// Opens the payload of a variant that holds named fields: reads the
    /// header of the map, and gives the visitor for its keys and values,
    /// which counts both.
    pub fn struct_variant(&mut self, de: &mut Deserializer) -> (r: Result<SeqVisitor, Error>)
        ensures
            final(self).variants() == old(self).variants(),
            match r {
                Ok(map) => {
                    &&& old(self).remaining() > 0
                    &&& final(self).remaining() == old(self).remaining() - 1
                    &&& map@ % 2 == 0
                    &&& parse_token(old(de).remaining()) == Ok::<(TokenView, Seq<u8>), Reason>(
                        (TokenView::Dict(map@ / 2), final(de).remaining()),
                    )
                },
                Err(e) => if old(self).remaining() == 0 {
                    e.reason() == Reason::EndOfStream && final(self).remaining() == 0
                } else {
                    &&& final(self).remaining() == old(self).remaining() - 1
                    &&& match parse_token(old(de).remaining()) {
                        Err(reason) => e.reason() == reason,
                        Ok((token, _)) => !(token is Dict) && e.reason() == Reason::BadType,
                    }
                },
            },
    {
        self.advance()?;
        match de.deserialize_any()? {
            Token::Dict(len) => Ok(SeqVisitor::new(len as u64 * 2)),
            _ => Err(Error::simple(Reason::BadType)),
        }
    }
}

} // verus!
