//! A visitor for extension values: it shows an extension value as a
//! structure of two fields, `type` and `data`.

use crate::error::{Error, Reason};
use vstd::prelude::*;

verus! {

/// The model of an [`ExtVisitor`].
pub struct ExtState {
    /// How many of the two fields were handed out.
    pub state: nat,
    /// The type of the extension value.
    pub ty: i8,
    /// The data of the extension value.
    pub data: Seq<u8>,
}

/// The value of one field of an extension value.
#[derive(Debug, PartialEq)]
pub enum ExtField {
    /// The value of the field `type`.
    Type(i8),
    /// The value of the field `data`.
    Data(Vec<u8>),
}

/// Hands out the two fields of an extension value in turn: first `type`,
/// then `data`.
#[derive(Debug)]
pub struct ExtVisitor {
    state: u8,
    ty: i8,
    data: Vec<u8>,
}

impl View for ExtVisitor {
    type V = ExtState;

    closed spec fn view(&self) -> ExtState {
        ExtState { state: self.state as nat, ty: self.ty, data: self.data@ }
    }
}

impl ExtVisitor {
    #[verifier::type_invariant]
    spec fn within(&self) -> bool {
        self.state <= 2
    }

    /// A visitor that has handed out nothing yet.
    pub fn new(ty: i8, data: Vec<u8>) -> (ext: ExtVisitor)
        ensures
            ext@ == (ExtState { state: 0, ty, data: data@ }),
    {
        ExtVisitor { state: 0, ty, data }
    }

    /// The name of the field that comes next, if one does.
    pub fn next_key(&self) -> (key: Option<&'static str>)
        ensures
            self@.state <= 2,
            match key {
                Some(name) => {
                    &&& self@.state == 0 ==> name@ == "type"@
                    &&& self@.state == 1 ==> name@ == "data"@
                    &&& self@.state < 2
                },
                None => self@.state == 2,
            },
    {
        proof {
            use_type_invariant(self);
        }
        if self.state == 0 {
            Some("type")
        } else if self.state == 1 {
            Some("data")
        } else {
            None
        }
    }

    /// The value of the field that comes next. After the second field
    /// there is none: the stream has ended.
    pub fn next_value(&mut self) -> (r: Result<ExtField, Error>)
        ensures
            final(self)@.ty == old(self)@.ty,
            final(self)@.data == old(self)@.data,
            match r {
                Ok(ExtField::Type(ty)) => {
                    &&& old(self)@.state == 0
                    &&& final(self)@.state == 1
                    &&& ty == old(self)@.ty
                },
                Ok(ExtField::Data(data)) => {
                    &&& old(self)@.state == 1
                    &&& final(self)@.state == 2
                    &&& data@ == old(self)@.data
                },
                Err(e) => {
                    &&& old(self)@.state == 2
                    &&& final(self)@.state == 2
                    &&& e.reason() == Reason::EndOfStream
                },
            },
    {
        proof {
            use_type_invariant(&*self);
        }
        if self.state == 0 {
            self.state += 1;
            Ok(ExtField::Type(self.ty))
        } else if self.state == 1 {
            self.state += 1;
            Ok(ExtField::Data(self.data.clone()))
        } else {
            Err(Error::simple(Reason::EndOfStream))
        }
    }

    /// The check at the end: both fields must have been handed out.
    pub fn end(&self) -> (r: Result<(), Error>)
        ensures
            match r {
                Ok(()) => self@.state == 2,
                Err(e) => self@.state < 2 && e.reason() == Reason::BadLength,
            },
    {
        proof {
            use_type_invariant(self);
        }
        if self.state > 1 {
            Ok(())
        } else {
            Err(Error::simple(Reason::BadLength))
        }
    }

    /// How many fields are still to come.
    pub fn size_hint(&self) -> (left: usize)
        ensures
            left == 2 - self@.state,
    {
        proof {
            use_type_invariant(self);
        }
        2 - self.state as usize
    }
}

} // verus!
