//! The visitor that decodes the elements of an array or a map: it hands
//! out as many values as the header declared, and no more.

use crate::de::Deserializer;
use crate::error::{Error, Reason};
use crate::generic::Generic;
use crate::wire::parse_value;
use vstd::prelude::*;

verus! {

/// A budget of values still to be read: the elements of an array, or the
/// keys and values of a map, both counted.
#[derive(Debug)]
pub struct SeqVisitor {
    count: u64,
}

impl View for SeqVisitor {
    type V = nat;

    /// How many values are still to be read.
    closed spec fn view(&self) -> nat {
        self.count as nat
    }
}

impl SeqVisitor {
    /// A visitor that will hand out `count` values.
    pub fn new(count: u64) -> (seq: SeqVisitor)
        ensures
            seq@ == count,
    {
        SeqVisitor { count }
    }

    /// Takes one value off the budget; says whether there was one left.
    pub fn advance(&mut self) -> (more: bool)
        ensures
            more == (old(self)@ > 0),
            final(self)@ == if more {
                (old(self)@ - 1) as nat
            } else {
                0
            },
    {
        if self.count == 0 {
            false
        } else {
            self.count -= 1;
            true
        }
    }

    /// Takes the value of a key off the budget. Where the budget is used
    /// up the key has no value, which counts as the end of the stream.
    pub fn advance_value(&mut self) -> (r: Result<(), Error>)
        ensures
            match r {
                Ok(()) => old(self)@ > 0 && final(self)@ == old(self)@ - 1,
                Err(e) => {
                    &&& old(self)@ == 0
                    &&& final(self)@ == 0
                    &&& e.reason() == Reason::EndOfStream
                },
            },
    {
        if self.advance() {
            Ok(())
        } else {
            Err(Error::simple(Reason::EndOfStream))
        }
    }

    /// Reads the next value, if the budget has one left.
    pub fn visit_item(&mut self, de: &mut Deserializer) -> (r: Result<Option<Generic>, Error>)
        ensures
            match r {
                Ok(Some(item)) => {
                    &&& old(self)@ > 0
                    &&& final(self)@ == old(self)@ - 1
                    &&& parse_value(old(de).remaining()) matches Ok((value, rest))
                    &&& item@ == value
                    &&& final(de).remaining() == rest
                },
                Ok(None) => {
                    &&& old(self)@ == 0
                    &&& final(self)@ == 0
                    &&& final(de).remaining() == old(de).remaining()
                },
                Err(e) => {
                    &&& old(self)@ > 0
                    &&& final(self)@ == old(self)@ - 1
                    &&& parse_value(old(de).remaining()) matches Err(reason)
                    &&& e.reason() == reason
                },
            },
        decreases old(de).remaining().len(), 1nat,
    {
        if !self.advance() {
            return Ok(None);
        }
        match Generic::deserialize(de) {
            Ok(item) => Ok(Some(item)),
            Err(e) => Err(e),
        }
    }

    /// Reads the next element of an array, if there is one left.
    pub fn next_element(&mut self, de: &mut Deserializer) -> (r: Result<Option<Generic>, Error>)
        ensures
            match r {
                Ok(Some(item)) => {
                    &&& old(self)@ > 0
                    &&& final(self)@ == old(self)@ - 1
                    &&& parse_value(old(de).remaining()) matches Ok((value, rest))
                    &&& item@ == value
                    &&& final(de).remaining() == rest
                },
                Ok(None) => {
                    &&& old(self)@ == 0
                    &&& final(self)@ == 0
                    &&& final(de).remaining() == old(de).remaining()
                },
                Err(e) => {
                    &&& old(self)@ > 0
                    &&& final(self)@ == old(self)@ - 1
                    &&& parse_value(old(de).remaining()) matches Err(reason)
                    &&& e.reason() == reason
                },
            },
        decreases old(de).remaining().len(), 2nat,
    {
        self.visit_item(de)
    }

    /// Reads the next key of a map, if there is one left.
    pub fn next_key(&mut self, de: &mut Deserializer) -> (r: Result<Option<Generic>, Error>)
        ensures
            match r {
                Ok(Some(item)) => {
                    &&& old(self)@ > 0
                    &&& final(self)@ == old(self)@ - 1
                    &&& parse_value(old(de).remaining()) matches Ok((value, rest))
                    &&& item@ == value
                    &&& final(de).remaining() == rest
                },
                Ok(None) => {
                    &&& old(self)@ == 0
                    &&& final(self)@ == 0
                    &&& final(de).remaining() == old(de).remaining()
                },
                Err(e) => {
                    &&& old(self)@ > 0
                    &&& final(self)@ == old(self)@ - 1
                    &&& parse_value(old(de).remaining()) matches Err(reason)
                    &&& e.reason() == reason
                },
            },
        decreases old(de).remaining().len(), 2nat,
    {
        self.visit_item(de)
    }

    /// Reads the value that belongs to the key read last. A budget that is
    /// used up counts as the end of the stream.
    pub fn next_value(&mut self, de: &mut Deserializer) -> (r: Result<Generic, Error>)
        ensures
            match r {
                Ok(item) => {
                    &&& old(self)@ > 0
                    &&& final(self)@ == old(self)@ - 1
                    &&& parse_value(old(de).remaining()) matches Ok((value, rest))
                    &&& item@ == value
                    &&& final(de).remaining() == rest
                },
                Err(e) => if old(self)@ == 0 {
                    e.reason() == Reason::EndOfStream && final(self)@ == 0
                } else {
                    &&& final(self)@ == old(self)@ - 1
                    &&& parse_value(old(de).remaining()) matches Err(reason)
                    &&& e.reason() == reason
                },
            },
        decreases old(de).remaining().len(), 2nat,
    {
        self.advance_value()?;
        Generic::deserialize(de)
    }

    /// How many elements of an array are still to be read.
    pub fn size_hint(&self) -> (left: u64)
        ensures
            left == self@,
    {
        self.count
    }

    /// How many keys of a map are still to be read.
    pub fn map_size_hint(&self) -> (left: u64)
        ensures
            left == (self@ + 1) / 2,
    {
        self.count / 2 + self.count % 2
    }

    /// The check at the end of a container: every declared value must have
    /// been read.
    pub fn end(&self) -> (r: Result<(), Error>)
        ensures
            match r {
                Ok(()) => self@ == 0,
                Err(e) => self@ > 0 && e.reason() == Reason::ExtraItems,
            },
    {
        if self.count == 0 {
            Ok(())
        } else {
            Err(Error::simple(Reason::ExtraItems))
        }
    }
}

} // verus!
