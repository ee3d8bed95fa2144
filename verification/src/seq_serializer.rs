//! The builder that frames the elements of an array.

use crate::defs::{ARRAY16, ARRAY32, FIXARRAY_MASK, MAX_ARRAY16, MAX_ARRAY32, MAX_FIXARRAY};
use crate::endian::{write_u16_be, write_u32_be};
use crate::error::{Error, Reason};
use crate::generic::Generic;
use crate::ser::Serializer;
use crate::wire::{array_header, encodable, encode_value, max_len};
use vstd::prelude::*;

verus! {

/// The model of a [`SeqSerializer`].
pub struct SeqState {
    /// How many elements were added.
    pub count: nat,
    /// The number of elements announced in advance, if it was.
    pub size: Option<nat>,
    /// The encoded elements that wait for the header.
    pub buffer: Seq<u8>,
}

/// Builds an array element by element. Where the number of elements is
/// announced first, the header goes out at once and each element follows it
/// directly. Where it is not, the elements are kept back until the end,
/// when their number is known and the header can precede them.
#[derive(Debug)]
pub struct SeqSerializer {
    count: usize,
    size: Option<usize>,
    buffer: Vec<u8>,
}

impl View for SeqSerializer {
    type V = SeqState;

    closed spec fn view(&self) -> SeqState {
        SeqState {
            count: self.count as nat,
            size: match self.size {
                Some(size) => Some(size as nat),
                None => None,
            },
            buffer: self.buffer@,
        }
    }
}

impl SeqSerializer {
    /// A builder with no element and no announced size.
    pub fn new() -> (seq: SeqSerializer)
        ensures
            seq@ == (SeqState { count: 0, size: None, buffer: Seq::empty() }),
    {
        SeqSerializer { count: 0, size: None, buffer: Vec::new() }
    }

    /// Announces the number of elements, or that it is not known. An
    /// announced number has its header written at once.
    pub fn hint_size(&mut self, size: Option<usize>, output: &mut Serializer) -> (r: Result<
        (),
        Error,
    >)
        ensures
            final(self)@.count == old(self)@.count,
            final(self)@.buffer == old(self)@.buffer,
            match size {
                Some(n) => final(self)@.size == Some(n as nat),
                None => final(self)@.size is None,
            },
            match r {
                Ok(()) => match size {
                    Some(n) => n <= max_len() && final(output)@ == old(output)@ + array_header(
                        n as nat,
                    ),
                    None => final(output)@ == old(output)@,
                },
                Err(e) => {
                    &&& size matches Some(n) && n > max_len()
                    &&& e.reason() == Reason::TooBig
                    &&& final(output)@ == old(output)@
                },
            },
    {
        self.size = size;
        if let Some(size) = self.size {
            // output this now because we know it
            Self::output_sequence_header(size, output)
        } else {
            Ok(())
        }
    }

    /// Whether elements go straight to the output.
    pub fn should_serialize_directly(&self) -> (direct: bool)
        ensures
            direct == self@.size is Some,
    {
        self.size.is_some()
    }

    /// Adds one element, given by its encoding.
    pub fn serialize_encoded(&mut self, element: &[u8], output: &mut Serializer) -> (r: Result<
        (),
        Error,
    >)
        ensures
            match r {
                Ok(()) => {
                    &&& old(self)@.count < usize::MAX
                    &&& final(self)@.count == old(self)@.count + 1
                    &&& final(self)@.size == old(self)@.size
                    &&& if old(self)@.size is Some {
                        &&& final(output)@ == old(output)@ + element@
                        &&& final(self)@.buffer == old(self)@.buffer
                    } else {
                        &&& final(output)@ == old(output)@
                        &&& final(self)@.buffer == old(self)@.buffer + element@
                    }
                },
                Err(e) => {
                    &&& old(self)@.count == usize::MAX
                    &&& e.reason() == Reason::TooBig
                    &&& final(self)@ == old(self)@
                    &&& final(output)@ == old(output)@
                },
            },
    {
        if self.count == usize::MAX {
            return Err(Error::simple(Reason::TooBig));
        }
        self.count += 1;
        if self.should_serialize_directly() {
            output.write(element);
        } else {
            self.buffer.extend_from_slice(element);
            assert(self.buffer@ =~= old(self).buffer@ + element@);
        }
        Ok(())
    }

    /// Adds one element. `pack` says how extension values inside it are
    /// written: in the extension form, or as structures of two fields.
    pub fn serialize_element(&mut self, value: &Generic, pack: bool, output: &mut Serializer) -> (r:
        Result<(), Error>)
        ensures
            match r {
                Ok(()) => {
                    &&& encodable(value@)
                    &&& old(self)@.count < usize::MAX
                    &&& final(self)@.count == old(self)@.count + 1
                    &&& final(self)@.size == old(self)@.size
                    &&& if old(self)@.size is Some {
                        &&& final(output)@ == old(output)@ + encode_value(value@, pack)
                        &&& final(self)@.buffer == old(self)@.buffer
                    } else {
                        &&& final(output)@ == old(output)@
                        &&& final(self)@.buffer == old(self)@.buffer + encode_value(value@, pack)
                    }
                },
                Err(e) => {
                    &&& old(self)@.count == usize::MAX || !encodable(value@)
                    &&& e.reason() == Reason::TooBig
                    &&& final(self)@.size == old(self)@.size
                    &&& old(self)@.buffer.is_prefix_of(final(self)@.buffer)
                    &&& old(output)@.is_prefix_of(final(output)@)
                },
            },
        decreases value, 2nat,
    {
        if self.count == usize::MAX {
            return Err(Error::simple(Reason::TooBig));
        }
        self.count += 1;
        if self.should_serialize_directly() {
            self.serialize_directly(value, pack, output)
        } else {
            self.serialize_into_buffer(value, pack)
        }
    }

    fn serialize_into_buffer(&mut self, value: &Generic, pack: bool) -> (r: Result<(), Error>)
        ensures
            final(self)@.count == old(self)@.count,
            final(self)@.size == old(self)@.size,
            match r {
                Ok(()) => {
                    &&& encodable(value@)
                    &&& final(self)@.buffer == old(self)@.buffer + encode_value(value@, pack)
                },
                Err(e) => {
                    &&& !encodable(value@)
                    &&& e.reason() == Reason::TooBig
                    &&& old(self)@.buffer.is_prefix_of(final(self)@.buffer)
                },
            },
        decreases value, 1nat,
    {
        let mut target = Serializer::new();
        target.swap_bytes(&mut self.buffer);
        let r = value.encode(&mut target, pack);
        target.swap_bytes(&mut self.buffer);
        r
    }

    fn serialize_directly(&mut self, value: &Generic, pack: bool, output: &mut Serializer) -> (r:
        Result<(), Error>)
        ensures
            final(self)@ == old(self)@,
            match r {
                Ok(()) => {
                    &&& encodable(value@)
                    &&& final(output)@ == old(output)@ + encode_value(value@, pack)
                },
                Err(e) => {
                    &&& !encodable(value@)
                    &&& e.reason() == Reason::TooBig
                    &&& old(output)@.is_prefix_of(final(output)@)
                },
            },
        decreases value, 1nat,
    {
        value.encode(output, pack)
    }

    /// Ends the array. With an announced size, checks that as many elements
    /// came; without, writes the header and then the elements kept back.
    pub fn finish(self, output: &mut Serializer) -> (r: Result<(), Error>)
        ensures
            match r {
                Ok(()) => match self@.size {
                    Some(size) => size == self@.count && final(output)@ == old(output)@,
                    None => self@.count <= max_len() && final(output)@ == old(output)@
                        + array_header(self@.count) + self@.buffer,
                },
                Err(e) => {
                    &&& final(output)@ == old(output)@
                    &&& match self@.size {
                        Some(size) => size != self@.count && e.reason() == Reason::BadLength,
                        None => self@.count > max_len() && e.reason() == Reason::TooBig,
                    }
                },
            },
    {
        if let Some(size) = self.size {
            self.check_item_count_matches_size(size)?;
            Ok(())
        } else {
            let count = self.count;
            Self::output_sequence_header(count, output)?;
            output.write(self.buffer.as_slice());
            assert(output@ =~= old(output)@ + array_header(self@.count) + self@.buffer);
            Ok(())
        }
    }

    fn check_item_count_matches_size(&self, size: usize) -> (r: Result<(), Error>)
        ensures
            match r {
                Ok(()) => size == self@.count,
                Err(e) => size != self@.count && e.reason() == Reason::BadLength,
            },
    {
        if size != self.count {
            Err(Error::simple(Reason::BadLength))
        } else {
            Ok(())
        }
    }

    /// Writes the header of an array of `size` elements, in the smallest
    /// tier that holds `size`.
    pub fn output_sequence_header(size: usize, output: &mut Serializer) -> (r: Result<(), Error>)
        ensures
            match r {
                Ok(()) => size <= max_len() && final(output)@ == old(output)@ + array_header(
                    size as nat,
                ),
                Err(e) => {
                    &&& size > max_len()
                    &&& e.reason() == Reason::TooBig
                    &&& final(output)@ == old(output)@
                },
            },
    {
        if size <= MAX_FIXARRAY {
            let short = size as u8;
            assert(short | 0x90u8 == 0x90u8 + short) by (bit_vector)
                requires
                    short <= 15,
            ;
            let head = [short | FIXARRAY_MASK];
            output.write(head.as_slice());
        } else if size <= MAX_ARRAY16 {
            let buf = write_u16_be(size as u16);
            let head = [ARRAY16];
            output.write(head.as_slice());
            output.write(buf.as_slice());
        } else if size <= MAX_ARRAY32 {
            let buf = write_u32_be(size as u32);
            let head = [ARRAY32];
            output.write(head.as_slice());
            output.write(buf.as_slice());
        } else {
            return Err(Error::simple(Reason::TooBig));
        }
        assert(output@ =~= old(output)@ + array_header(size as nat));
        Ok(())
    }
}

} // verus!
