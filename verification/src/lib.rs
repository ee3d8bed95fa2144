//! A MessagePack codec whose wire format is proved against a mathematical
//! model of the encoding.

pub mod de;
pub mod defs;
pub mod endian;
pub mod error;
pub mod ext_visitor;
pub mod generic;
pub mod map_serializer;
pub mod map_variant_serializer;
pub mod prefix;
pub mod roundtrip;
pub mod seq_serializer;
pub mod seq_visitor;
pub mod ser;
pub mod shortest;
pub mod variant_visitor;
pub mod wire;

use crate::de::Deserializer;
use crate::error::{Error, Reason};
use crate::generic::Generic;
use crate::ser::Serializer;
use crate::wire::{encodable, encode_value, parse_value};
use vstd::prelude::*;

verus! {

/// Parse a value out of a slice of bytes. Bytes after the value are left
/// unread.
pub fn from_bytes(bytes: &[u8]) -> (r: Result<Generic, Error>)
    ensures
        match r {
            Ok(value) => parse_value(bytes@) matches Ok((model, _)) && value@ == model,
            Err(e) => parse_value(bytes@) matches Err(reason) && e.reason() == reason,
        },
{
    let mut de = Deserializer::new(bytes);
    Generic::deserialize(&mut de)
}

/// Serialize a value into a byte buffer.
pub fn to_bytes(value: &Generic) -> (r: Result<Vec<u8>, Error>)
    ensures
        match r {
            Ok(bytes) => encodable(value@) && bytes@ == encode_value(value@, true),
            Err(e) => !encodable(value@) && e.reason() == Reason::TooBig,
        },
{
    let mut ser = Serializer::new();
    match value.serialize_pack(&mut ser) {
        Ok(()) => {
            let bytes = ser.into_bytes();
            assert(bytes@ =~= encode_value(value@, true));
            Ok(bytes)
        },
        Err(e) => Err(e),
    }
}

} // verus!
