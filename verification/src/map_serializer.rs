//! The builder that frames the keys and values of a map.

use crate::defs::{FIXMAP_MASK, MAP16, MAP32};
use crate::endian::{write_u16_be, write_u32_be};
use crate::error::{Error, Reason};
use crate::generic::Generic;
use crate::ser::Serializer;
use crate::wire::{encodable, encode_str, encode_value, map_header, max_len};
use vstd::prelude::*;
use vstd::utf8::*;

verus! {

/// The model of a [`MapSerializer`].
pub struct MapState {
    /// How many keys and values were added, both counted.
    pub size: nat,
    /// The encoded keys and values, which wait for the header.
    pub buffer: Seq<u8>,
}

/// Builds a map from keys and values that come in turn. All of them are
/// kept back until the end, when their number is known and the header can
/// precede them.
#[derive(Debug)]
pub struct MapSerializer {
    size: u64,
    buffer: Vec<u8>,
}

impl View for MapSerializer {
    type V = MapState;

    closed spec fn view(&self) -> MapState {
        MapState { size: self.size as nat, buffer: self.buffer@ }
    }
}

impl MapSerializer {
    /// A builder with no key and no value.
    pub fn new() -> (map: MapSerializer)
        ensures
            map@ == (MapState { size: 0, buffer: Seq::empty() }),
    {
        MapSerializer { size: 0, buffer: Vec::new() }
    }

    /// Adds a key or a value, given by its encoding.
    pub fn serialize_encoded(&mut self, element: &[u8]) -> (r: Result<(), Error>)
        ensures
            match r {
                Ok(()) => {
                    &&& old(self)@.size < u64::MAX
                    &&& final(self)@.size == old(self)@.size + 1
                    &&& final(self)@.buffer == old(self)@.buffer + element@
                },
                Err(e) => {
                    &&& old(self)@.size == u64::MAX
                    &&& e.reason() == Reason::TooBig
                    &&& final(self)@ == old(self)@
                },
            },
    {
        if self.size == u64::MAX {
            return Err(Error::simple(Reason::TooBig));
        }
        self.size += 1;
        self.buffer.extend_from_slice(element);
        assert(self.buffer@ =~= old(self).buffer@ + element@);
        Ok(())
    }

    /// Adds a key or a value. `pack` says how extension values inside it
    /// are written: in the extension form, or as structures of two fields.
    pub fn serialize_element(&mut self, value: &Generic, pack: bool) -> (r: Result<(), Error>)
        ensures
            match r {
                Ok(()) => {
                    &&& encodable(value@)
                    &&& old(self)@.size < u64::MAX
                    &&& final(self)@.size == old(self)@.size + 1
                    &&& final(self)@.buffer == old(self)@.buffer + encode_value(value@, pack)
                },
                Err(e) => {
                    &&& old(self)@.size == u64::MAX || !encodable(value@)
                    &&& e.reason() == Reason::TooBig
                    &&& old(self)@.buffer.is_prefix_of(final(self)@.buffer)
                },
            },
        decreases value, 1nat,
    {
        if self.size == u64::MAX {
            return Err(Error::simple(Reason::TooBig));
        }
        self.size += 1;
        let mut target = Serializer::new();
        target.swap_bytes(&mut self.buffer);
        let r = value.encode(&mut target, pack);
        target.swap_bytes(&mut self.buffer);
        r
    }

    /// Adds the name of a field as a key.
    pub fn serialize_field_name(&mut self, key: &str) -> (r: Result<(), Error>)
        ensures
            match r {
                Ok(()) => {
                    &&& encode_utf8(key@).len() <= max_len()
                    &&& old(self)@.size < u64::MAX
                    &&& final(self)@.size == old(self)@.size + 1
                    &&& final(self)@.buffer == old(self)@.buffer + encode_str(key@)
                },
                Err(e) => {
                    &&& old(self)@.size == u64::MAX || encode_utf8(key@).len() > max_len()
                    &&& e.reason() == Reason::TooBig
                    &&& final(self)@ == old(self)@
                },
            },
    {
        if self.size == u64::MAX {
            return Err(Error::simple(Reason::TooBig));
        }
        let mut target = Serializer::new();
        target.swap_bytes(&mut self.buffer);
        let r = target.serialize_str(key);
        target.swap_bytes(&mut self.buffer);
        if r.is_ok() {
            self.size += 1;
        }
        r
    }

    /// Adds a field of a structure: its name as the key, then its value.
    pub fn serialize_field(&mut self, key: &str, value: &Generic, pack: bool) -> (r: Result<
        (),
        Error,
    >)
        ensures
            match r {
                Ok(()) => {
                    &&& encode_utf8(key@).len() <= max_len()
                    &&& encodable(value@)
                    &&& old(self)@.size + 1 < u64::MAX
                    &&& final(self)@.size == old(self)@.size + 2
                    &&& final(self)@.buffer == old(self)@.buffer + encode_str(key@) + encode_value(
                        value@,
                        pack,
                    )
                },
                Err(e) => {
                    &&& old(self)@.size + 1 >= u64::MAX || encode_utf8(key@).len() > max_len()
                        || !encodable(value@)
                    &&& e.reason() == Reason::TooBig
                },
            },
    {
        self.serialize_field_name(key)?;
        self.serialize_element(value, pack)
    }

    /// Writes the header of a map of `size` pairs, in the smallest tier
    /// that holds `size`.
    pub fn output_map_header(size: u64, output: &mut Serializer) -> (r: Result<(), Error>)
        ensures
            match r {
                Ok(()) => size <= max_len() && final(output)@ == old(output)@ + map_header(
                    size as nat,
                ),
                Err(e) => {
                    &&& size > max_len()
                    &&& e.reason() == Reason::TooBig
                    &&& final(output)@ == old(output)@
                },
            },
    {
        if size <= 15 {
            let short = size as u8;
            assert(short | 0x80u8 == 0x80u8 + short) by (bit_vector)
                requires
                    short <= 15,
            ;
            let head = [short | FIXMAP_MASK];
            output.write(head.as_slice());
        } else if size <= 0xffff {
            let buf = write_u16_be(size as u16);
            let head = [MAP16];
            output.write(head.as_slice());
            output.write(buf.as_slice());
        } else if size <= 0xffff_ffff {
            let buf = write_u32_be(size as u32);
            let head = [MAP32];
            output.write(head.as_slice());
            output.write(buf.as_slice());
        } else {
            return Err(Error::simple(Reason::TooBig));
        }
        assert(output@ =~= old(output)@ + map_header(size as nat));
        Ok(())
    }

    /// Ends the map: writes the header for half as many pairs as keys and
    /// values came, then the keys and values. A key without a value is
    /// refused.
    pub fn finish(self, output: &mut Serializer) -> (r: Result<(), Error>)
        ensures
            match r {
                Ok(()) => {
                    &&& self@.size % 2 == 0
                    &&& self@.size / 2 <= max_len()
                    &&& final(output)@ == old(output)@ + map_header(self@.size / 2) + self@.buffer
                },
                Err(e) => {
                    &&& final(output)@ == old(output)@
                    &&& if self@.size % 2 != 0 {
                        e.reason() == Reason::BadLength
                    } else {
                        self@.size / 2 > max_len() && e.reason() == Reason::TooBig
                    }
                },
            },
    {
        if self.size % 2 != 0 {
            return Err(Error::simple(Reason::BadLength));
        }
        let pairs = self.size / 2;
        Self::output_map_header(pairs, output)?;
        output.write(self.buffer.as_slice());
        assert(output@ =~= old(output)@ + map_header(self@.size / 2) + self@.buffer);
        Ok(())
    }
}

} // verus!
