//! The builder for a variant of a tagged union whose payload is a
//! structure of named fields.

use crate::error::{Error, Reason};
use crate::generic::Generic;
use crate::map_serializer::MapSerializer;
use crate::ser::Serializer;
use crate::wire::{
    encodable, encode_str, encode_value, map_header, max_len, variant_header,
};
use vstd::prelude::*;
use vstd::utf8::*;

verus! {

/// The model of a [`MapVariantSerializer`].
pub struct MapVariantState {
    /// How many keys and values were added, both counted.
    pub size: nat,
    /// The index of the variant.
    pub variant: nat,
    /// The encoded keys and values, which wait for the headers.
    pub buffer: Seq<u8>,
}

/// Builds a variant with named fields: a sequence of two elements, the
/// index of the variant and the map of its fields.
#[derive(Debug)]
pub struct MapVariantSerializer {
    size: u64,
    variant: usize,
    buffer: Vec<u8>,
}

impl View for MapVariantSerializer {
    type V = MapVariantState;

    closed spec fn view(&self) -> MapVariantState {
        MapVariantState {
            size: self.size as nat,
            variant: self.variant as nat,
            buffer: self.buffer@,
        }
    }
}

impl MapVariantSerializer {
    /// A builder for the variant of index `variant`, with no field yet.
    pub fn new(variant: usize) -> (map: MapVariantSerializer)
        ensures
            map@ == (MapVariantState { size: 0, variant: variant as nat, buffer: Seq::empty() }),
    {
        MapVariantSerializer { size: 0, variant, buffer: Vec::new() }
    }

    /// Adds a key or a value, given by its encoding.
    pub fn serialize_encoded(&mut self, element: &[u8]) -> (r: Result<(), Error>)
        ensures
            final(self)@.variant == old(self)@.variant,
            match r {
                Ok(()) => {
                    &&& old(self)@.size < u64::MAX
                    &&& final(self)@.size == old(self)@.size + 1
                    &&& final(self)@.buffer == old(self)@.buffer + element@
                },
                Err(e) => {
                    &&& old(self)@.size == u64::MAX
                    &&& e.reason() == Reason::TooBig
                    &&& final(self)@ == old(self)@
                },
            },
    {
        if self.size == u64::MAX {
            return Err(Error::simple(Reason::TooBig));
        }
        self.size += 1;
        self.buffer.extend_from_slice(element);
        assert(self.buffer@ =~= old(self).buffer@ + element@);
        Ok(())
    }

    /// Adds a key or a value. `pack` says how extension values inside it
    /// are written: in the extension form, or as structures of two fields.
    pub fn serialize_element(&mut self, value: &Generic, pack: bool) -> (r: Result<(), Error>)
        ensures
            final(self)@.variant == old(self)@.variant,
            match r {
                Ok(()) => {
                    &&& encodable(value@)
                    &&& old(self)@.size < u64::MAX
                    &&& final(self)@.size == old(self)@.size + 1
                    &&& final(self)@.buffer == old(self)@.buffer + encode_value(value@, pack)
                },
                Err(e) => {
                    &&& old(self)@.size == u64::MAX || !encodable(value@)
                    &&& e.reason() == Reason::TooBig
                    &&& old(self)@.buffer.is_prefix_of(final(self)@.buffer)
                },
            },
    {
        if self.size == u64::MAX {
            return Err(Error::simple(Reason::TooBig));
        }
        self.size += 1;
        let mut target = Serializer::new();
        target.swap_bytes(&mut self.buffer);
        let r = value.encode(&mut target, pack);
        target.swap_bytes(&mut self.buffer);
        r
    }

    /// Adds a field: its name as the key, then its value.
    pub fn serialize_field(&mut self, key: &str, value: &Generic, pack: bool) -> (r: Result<
        (),
        Error,
    >)
        ensures
            final(self)@.variant == old(self)@.variant,
            match r {
                Ok(()) => {
                    &&& encode_utf8(key@).len() <= max_len()
                    &&& encodable(value@)
                    &&& old(self)@.size + 1 < u64::MAX
                    &&& final(self)@.size == old(self)@.size + 2
                    &&& final(self)@.buffer == old(self)@.buffer + encode_str(key@) + encode_value(
                        value@,
                        pack,
                    )
                },
                Err(e) => {
                    &&& old(self)@.size + 1 >= u64::MAX || encode_utf8(key@).len() > max_len()
                        || !encodable(value@)
                    &&& e.reason() == Reason::TooBig
                },
            },
    {
        if self.size == u64::MAX {
            return Err(Error::simple(Reason::TooBig));
        }
        let mut target = Serializer::new();
        target.swap_bytes(&mut self.buffer);
        let name = target.serialize_str(key);
        target.swap_bytes(&mut self.buffer);
        name?;
        self.size += 1;
        self.serialize_element(value, pack)
    }

    /// Ends the variant: writes the header of a sequence of two, the index
    /// of the variant, and then the map of the fields.
    pub fn finish(self, output: &mut Serializer) -> (r: Result<(), Error>)
        ensures
            match r {
                Ok(()) => {
                    &&& self@.size % 2 == 0
                    &&& self@.size / 2 <= max_len()
                    &&& final(output)@ == old(output)@ + variant_header(self@.variant) + map_header(
                        self@.size / 2,
                    ) + self@.buffer
                },
                Err(e) => {
                    &&& final(output)@ == old(output)@ + variant_header(self@.variant)
                    &&& if self@.size % 2 != 0 {
                        e.reason() == Reason::BadLength
                    } else {
                        self@.size / 2 > max_len() && e.reason() == Reason::TooBig
                    }
                },
            },
    {
        // get the serialized variant
        let variant_buffer = self.serialize_variant();
        // output a tuple of size two
        let head = [2u8 | crate::defs::FIXARRAY_MASK];
        assert(2u8 | 0x90u8 == 0x92u8) by (bit_vector);
        output.write(head.as_slice());
        // output our variant index
        output.write(variant_buffer.as_slice());
        assert(output@ =~= old(output)@ + variant_header(self@.variant));
        // now output the map as the second element
        self.output_map(output)
    }

    fn serialize_variant(&self) -> (buffer: Vec<u8>)
        ensures
            buffer@ == crate::wire::encode_unsigned(self.variant as u64),
    {
        // serialize the variant index into a buffer of its own
        let mut target = Serializer::new();
        target.serialize_unsigned(self.variant as u64);
        let buffer = target.into_bytes();
        assert(buffer@ =~= crate::wire::encode_unsigned(self.variant as u64));
        buffer
    }

    fn output_map(self, output: &mut Serializer) -> (r: Result<(), Error>)
        ensures
            match r {
                Ok(()) => {
                    &&& self@.size % 2 == 0
                    &&& self@.size / 2 <= max_len()
                    &&& final(output)@ == old(output)@ + map_header(self@.size / 2) + self@.buffer
                },
                Err(e) => {
                    &&& final(output)@ == old(output)@
                    &&& if self@.size % 2 != 0 {
                        e.reason() == Reason::BadLength
                    } else {
                        self@.size / 2 > max_len() && e.reason() == Reason::TooBig
                    }
                },
            },
    {
        if self.size % 2 != 0 {
            return Err(Error::simple(Reason::BadLength));
        }
        let pairs = self.size / 2;
        MapSerializer::output_map_header(pairs, output)?;
        output.write(self.buffer.as_slice());
        assert(output@ =~= old(output)@ + map_header(self@.size / 2) + self@.buffer);
        Ok(())
    }
}

} // verus!
