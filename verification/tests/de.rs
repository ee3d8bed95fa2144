use corepack::de::{Deserializer, Token};
use corepack::error::Reason;
use corepack::from_bytes;
use corepack::generic::Generic;
use std::collections::BTreeMap;

fn as_u64(value: &Generic) -> u64 {
    match value {
        Generic::UInt(v) => *v,
        Generic::Int(v) if *v >= 0 => *v as u64,
        other => panic!("not an unsigned integer: {:?}", other),
    }
}

fn as_i64(value: &Generic) -> i64 {
    match value {
        Generic::Int(v) => *v,
        Generic::UInt(v) if *v <= i64::MAX as u64 => *v as i64,
        other => panic!("not an integer: {:?}", other),
    }
}

fn as_string(value: Generic) -> String {
    match value {
        Generic::Str(s) => s,
        other => panic!("not a string: {:?}", other),
    }
}

fn items(value: Generic) -> Vec<Generic> {
    match value {
        Generic::Array(items) => items,
        other => panic!("not an array: {:?}", other),
    }
}

#[test]
fn de_positive_fixint_test() {
    let value: u8 = as_u64(&from_bytes(&[0x17]).unwrap()) as u8;
    assert_eq!(value, 23);
}

#[test]
fn de_negative_fixint_test() {
    let value: i8 = as_i64(&from_bytes(&[0xfb]).unwrap()) as i8;
    assert_eq!(value, -5);
}

#[test]
fn de_uint8_test() {
    let value: u8 = as_u64(&from_bytes(&[0xcc, 0x9a]).unwrap()) as u8;
    assert_eq!(value, 154);
}

#[test]
fn de_fixstr_test() {
    let value: String = as_string(
        from_bytes(&[
            0xac, 0x48, 0x65, 0x6c, 0x6c, 0x6f, 0x20, 0x57, 0x6f, 0x72, 0x6c, 0x64, 0x21,
        ])
        .unwrap(),
    );
    assert_eq!(value, "Hello World!");
}

#[test]
fn de_str8_test() {
    let s: &str = "The quick brown fox jumps over the lazy dog";
    let mut fixture: Vec<u8> = vec![];
    fixture.push(0xd9);
    fixture.push(s.len() as u8);
    fixture.extend_from_slice(s.as_bytes());
    let value: String = as_string(from_bytes(fixture.as_slice()).unwrap());
    assert_eq!(value, s);
}

#[test]
fn de_fixarr_test() {
    let v: Vec<u8> = items(from_bytes(&[0x94, 0x05, 0x08, 0x14, 0xcc, 0xe7]).unwrap())
        .iter()
        .map(|item| as_u64(item) as u8)
        .collect();
    assert_eq!(v, &[5, 8, 20, 231]);
}

#[test]
fn de_array16_test() {
    let v: Vec<isize> = items(
        from_bytes(&[
            0xdc, 0x00, 0x11, 0xfb, 0x10, 0x65, 0xd0, 0xd3, 0xcc, 0xb8, 0x59, 0x3e, 0xd1, 0xff,
            0x17, 0xd0, 0xdf, 0xd1, 0x01, 0x30, 0x4c, 0x5a, 0x17, 0x6c, 0x2d, 0xfd, 0x02,
        ])
        .unwrap(),
    )
    .iter()
    .map(|item| as_i64(item) as isize)
    .collect();

    assert_eq!(v, &[-5, 16, 101, -45, 184, 89, 62, -233, -33, 304, 76, 90, 23, 108, 45, -3, 2]);
}

#[test]
fn de_fixmap_test() {
    let value = from_bytes(&[
        0x83, 0xa3, 0x6f, 0x6e, 0x65, 0x01, 0xa5, 0x74, 0x68, 0x72, 0x65, 0x65, 0x03, 0xa3, 0x74,
        0x77, 0x6f, 0x02,
    ])
    .unwrap();
    let mut map: BTreeMap<String, usize> = match value {
        Generic::Dict(pairs) => {
            pairs.into_iter().map(|(k, v)| (as_string(k), as_u64(&v) as usize)).collect()
        }
        other => panic!("not a map: {:?}", other),
    };
    assert_eq!(map.remove(&format!("one")), Some(1));
    assert_eq!(map.remove(&format!("two")), Some(2));
    assert_eq!(map.remove(&format!("three")), Some(3));
    assert!(map.is_empty());
}

fn token(bytes: &[u8]) -> Result<Token<'_>, Reason> {
    let mut de = Deserializer::new(bytes);
    de.deserialize_any().map_err(|e| e.reason())
}

#[test]
fn every_unsigned_width_is_read() {
    assert_eq!(token(&[0x00]), Ok(Token::U8(0)));
    assert_eq!(token(&[0x7f]), Ok(Token::U8(127)));
    assert_eq!(token(&[0xcc, 0x9a]), Ok(Token::U8(154)));
    assert_eq!(token(&[0xcd, 0x12, 0x34]), Ok(Token::U16(0x1234)));
    assert_eq!(token(&[0xce, 0x12, 0x34, 0x56, 0x78]), Ok(Token::U32(0x1234_5678)));
    assert_eq!(
        token(&[0xcf, 0x01, 0x23, 0x45, 0x67, 0x89, 0xab, 0xcd, 0xef]),
        Ok(Token::U64(0x0123_4567_89ab_cdef))
    );
}

#[test]
fn every_signed_width_is_read() {
    assert_eq!(token(&[0xff]), Ok(Token::I8(-1)));
    assert_eq!(token(&[0xe0]), Ok(Token::I8(-32)));
    assert_eq!(token(&[0xd0, 0xdf]), Ok(Token::I8(-33)));
    assert_eq!(token(&[0xd0, 0x80]), Ok(Token::I8(-128)));
    assert_eq!(token(&[0xd0, 0x7f]), Ok(Token::I8(127)));
    assert_eq!(token(&[0xd1, 0xfc, 0x18]), Ok(Token::I16(-1000)));
    assert_eq!(token(&[0xd1, 0x01, 0x30]), Ok(Token::I16(304)));
    assert_eq!(token(&[0xd2, 0xff, 0xfe, 0x79, 0x60]), Ok(Token::I32(-100_000)));
    assert_eq!(
        token(&[0xd3, 0xff, 0xff, 0xff, 0xfe, 0xd5, 0xfa, 0x0e, 0x00]),
        Ok(Token::I64(-5_000_000_000))
    );
    assert_eq!(token(&[0xd3, 0x80, 0, 0, 0, 0, 0, 0, 0]), Ok(Token::I64(i64::MIN)));
}

#[test]
fn floats_are_read_as_bits() {
    assert_eq!(token(&[0xca, 0x3f, 0xc0, 0x00, 0x00]), Ok(Token::F32(1.5f32.to_bits())));
    assert_eq!(
        token(&[0xcb, 0xc0, 0x02, 0x00, 0x00, 0x00, 0x00, 0x00, 0x00]),
        Ok(Token::F64((-2.25f64).to_bits()))
    );
    assert_eq!(from_bytes(&[0xca, 0x3f, 0xc0, 0, 0]).unwrap(), Generic::F32(1.5f32.to_bits()));
}

#[test]
fn unit_and_booleans_are_read() {
    assert_eq!(token(&[0xc0]), Ok(Token::Unit));
    assert_eq!(token(&[0xc2]), Ok(Token::Bool(false)));
    assert_eq!(token(&[0xc3]), Ok(Token::Bool(true)));
    assert_eq!(from_bytes(&[0xc0]).unwrap(), Generic::Nil);
    assert_eq!(from_bytes(&[0xc2]).unwrap(), Generic::False);
    assert_eq!(from_bytes(&[0xc3]).unwrap(), Generic::True);
}

#[test]
fn strings_of_every_tier_are_read() {
    assert_eq!(token(&[0xa0]), Ok(Token::Str("")));
    assert_eq!(token(&[0xa2, b'h', b'i']), Ok(Token::Str("hi")));
    assert_eq!(token(&[0xd9, 2, b'h', b'i']), Ok(Token::Str("hi")));
    assert_eq!(token(&[0xda, 0, 2, b'h', b'i']), Ok(Token::Str("hi")));
    assert_eq!(token(&[0xdb, 0, 0, 0, 2, b'h', b'i']), Ok(Token::Str("hi")));
    assert_eq!(token(&[0xa3, b'h', 0xc3, 0xa9]), Ok(Token::Str("h\u{e9}")));
    let long = "y".repeat(300);
    let mut bytes = vec![0xda, 0x01, 0x2c];
    bytes.extend_from_slice(long.as_bytes());
    assert_eq!(token(&bytes), Ok(Token::Str(&long)));
}

#[test]
fn blobs_of_every_tier_are_read() {
    assert_eq!(token(&[0xc4, 0]), Ok(Token::Bytes(&[])));
    assert_eq!(token(&[0xc4, 2, 8, 9]), Ok(Token::Bytes(&[8, 9])));
    assert_eq!(token(&[0xc5, 0, 2, 8, 9]), Ok(Token::Bytes(&[8, 9])));
    assert_eq!(token(&[0xc6, 0, 0, 0, 2, 8, 9]), Ok(Token::Bytes(&[8, 9])));
    assert_eq!(from_bytes(&[0xc4, 2, 8, 9]).unwrap(), Generic::Bin(vec![8, 9]));
}

#[test]
fn extensions_of_every_form_are_read() {
    assert_eq!(token(&[0xd4, 0x05, 9]), Ok(Token::Ext(5, &[9])));
    assert_eq!(token(&[0xd5, 0xff, 9, 8]), Ok(Token::Ext(-1, &[9, 8])));
    assert_eq!(token(&[0xd6, 0x80, 1, 2, 3, 4]), Ok(Token::Ext(-128, &[1, 2, 3, 4])));
    assert_eq!(token(&[0xd7, 1, 1, 2, 3, 4, 5, 6, 7, 8]), Ok(Token::Ext(1, &[1, 2, 3, 4, 5, 6, 7, 8])));
    let mut sixteen = vec![0xd8, 0x7f];
    sixteen.extend_from_slice(&[6u8; 16]);
    assert_eq!(token(&sixteen), Ok(Token::Ext(127, &[6u8; 16])));
    assert_eq!(token(&[0xc7, 3, 0x01, 9, 9, 9]), Ok(Token::Ext(1, &[9, 9, 9])));
    assert_eq!(token(&[0xc7, 0, 0x01]), Ok(Token::Ext(1, &[])));
    assert_eq!(token(&[0xc8, 0, 1, 0xfe, 7]), Ok(Token::Ext(-2, &[7])));
    assert_eq!(token(&[0xc9, 0, 0, 0, 1, 0x02, 7]), Ok(Token::Ext(2, &[7])));
    assert_eq!(from_bytes(&[0xd5, 0x03, 1, 2]).unwrap(), Generic::Ext(3, vec![1, 2]));
}

#[test]
fn container_headers_of_every_tier_are_read() {
    assert_eq!(token(&[0x90]), Ok(Token::Array(0)));
    assert_eq!(token(&[0x9f]), Ok(Token::Array(15)));
    assert_eq!(token(&[0xdc, 0x00, 0x11]), Ok(Token::Array(17)));
    assert_eq!(token(&[0xdd, 0x00, 0x01, 0x00, 0x00]), Ok(Token::Array(65536)));
    assert_eq!(token(&[0x80]), Ok(Token::Dict(0)));
    assert_eq!(token(&[0x8f]), Ok(Token::Dict(15)));
    assert_eq!(token(&[0xde, 0x01, 0x00]), Ok(Token::Dict(256)));
    assert_eq!(token(&[0xdf, 0x00, 0x01, 0x00, 0x01]), Ok(Token::Dict(65537)));
}

#[test]
fn a_header_takes_only_its_own_bytes() {
    let bytes = [0xdc, 0x00, 0x02, 0x01, 0x02];
    let mut de = Deserializer::new(&bytes);
    assert_eq!(de.deserialize_any().unwrap(), Token::Array(2));
    assert_eq!(de.deserialize_any().unwrap(), Token::U8(1));
    assert_eq!(de.deserialize_any().unwrap(), Token::U8(2));
    assert_eq!(de.deserialize_any().unwrap_err().reason(), Reason::EndOfStream);
}

#[test]
fn parse_as_reads_after_the_tag() {
    let bytes = [0x12, 0x34, 0xff];
    let mut de = Deserializer::new(&bytes);
    assert_eq!(de.parse_as(0xcd).unwrap(), Token::U16(0x1234));
    assert_eq!(de.parse_as(0x05).unwrap(), Token::U8(5));
    assert_eq!(de.input(1).unwrap(), &[0xff]);
    assert_eq!(de.input(0).unwrap(), &[] as &[u8]);
    assert_eq!(de.input(1).unwrap_err().reason(), Reason::EndOfStream);
}

#[test]
fn the_unassigned_tag_is_refused() {
    assert_eq!(token(&[0xc1]), Err(Reason::BadType));
    assert_eq!(from_bytes(&[0xc1]).unwrap_err().reason(), Reason::BadType);
    assert_eq!(from_bytes(&[0x91, 0xc1]).unwrap_err().reason(), Reason::BadType);
}

#[test]
fn every_other_tag_is_read() {
    for tag in 0u16..=255 {
        let tag = tag as u8;
        let mut bytes = vec![tag];
        bytes.extend_from_slice(&[0, 0, 0, 0, 0, 0, 0, 0, 0]);
        bytes.extend_from_slice(&[b'a'; 40]);
        let r = token(&bytes);
        if tag == 0xc1 {
            assert_eq!(r, Err(Reason::BadType));
        } else {
            assert!(r.is_ok(), "tag {:#x}: {:?}", tag, r);
        }
    }
}

#[test]
fn truncated_input_ends_the_stream() {
    assert_eq!(token(&[]), Err(Reason::EndOfStream));
    assert_eq!(token(&[0xcc]), Err(Reason::EndOfStream));
    assert_eq!(token(&[0xcd, 0x01]), Err(Reason::EndOfStream));
    assert_eq!(token(&[0xce, 0, 0, 0]), Err(Reason::EndOfStream));
    assert_eq!(token(&[0xcf, 0, 0, 0, 0, 0, 0, 0]), Err(Reason::EndOfStream));
    assert_eq!(token(&[0xd3, 0]), Err(Reason::EndOfStream));
    assert_eq!(token(&[0xca, 0]), Err(Reason::EndOfStream));
    assert_eq!(token(&[0xa2, b'h']), Err(Reason::EndOfStream));
    assert_eq!(token(&[0xd9, 2, b'h']), Err(Reason::EndOfStream));
    assert_eq!(token(&[0xc4, 2, 1]), Err(Reason::EndOfStream));
    assert_eq!(token(&[0xc5, 0]), Err(Reason::EndOfStream));
    assert_eq!(token(&[0xd4, 1]), Err(Reason::EndOfStream));
    assert_eq!(token(&[0xd4]), Err(Reason::EndOfStream));
    assert_eq!(token(&[0xc7, 2, 1, 0]), Err(Reason::EndOfStream));
    assert_eq!(token(&[0xc9, 0xff, 0xff, 0xff, 0xff, 1]), Err(Reason::EndOfStream));
    assert_eq!(token(&[0xdc, 0]), Err(Reason::EndOfStream));
    assert_eq!(token(&[0xdf, 0, 0, 0]), Err(Reason::EndOfStream));
}

#[test]
fn ill_formed_text_is_refused() {
    assert_eq!(token(&[0xa1, 0xff]), Err(Reason::UTF8Error));
    assert_eq!(token(&[0xa2, 0xc3, 0x28]), Err(Reason::UTF8Error));
    assert_eq!(token(&[0xd9, 3, 0xed, 0xa0, 0x80]), Err(Reason::UTF8Error));
    assert_eq!(from_bytes(&[0xa1, 0x80]).unwrap_err().reason(), Reason::UTF8Error);
    // the same bytes are fine as a blob
    assert_eq!(token(&[0xc4, 1, 0xff]), Ok(Token::Bytes(&[0xff])));
}

#[test]
fn an_array_that_runs_out_ends_the_stream() {
    assert_eq!(from_bytes(&[0x94, 1, 2, 3]).unwrap_err().reason(), Reason::EndOfStream);
    assert_eq!(from_bytes(&[0x94]).unwrap_err().reason(), Reason::EndOfStream);
    assert_eq!(from_bytes(&[0x81, 0xa1, b'k']).unwrap_err().reason(), Reason::EndOfStream);
    assert_eq!(from_bytes(&[0x81]).unwrap_err().reason(), Reason::EndOfStream);
    assert_eq!(from_bytes(&[0xdd, 0xff, 0xff, 0xff, 0xff, 1]).unwrap_err().reason(), Reason::EndOfStream);
    assert_eq!(from_bytes(&[0xdf, 0xff, 0xff, 0xff, 0xff, 1, 2]).unwrap_err().reason(), Reason::EndOfStream);
}

#[test]
fn bytes_after_the_value_are_left() {
    assert_eq!(from_bytes(&[0x01, 0xc1, 0xff]).unwrap(), Generic::UInt(1));
    let bytes = [0x92, 0x01, 0x02, 0x03];
    let mut de = Deserializer::new(&bytes);
    assert_eq!(
        Generic::deserialize(&mut de).unwrap(),
        Generic::Array(vec![Generic::UInt(1), Generic::UInt(2)])
    );
    assert_eq!(Generic::deserialize(&mut de).unwrap(), Generic::UInt(3));
    assert_eq!(Generic::deserialize(&mut de).unwrap_err().reason(), Reason::EndOfStream);
}

#[test]
fn nested_values_are_read() {
    assert_eq!(
        from_bytes(&[0x92, 0x81, 0xa1, b'k', 0x91, 0xff, 0xc0]).unwrap(),
        Generic::Array(vec![
            Generic::Dict(vec![(
                Generic::Str("k".into()),
                Generic::Array(vec![Generic::Int(-1)])
            )]),
            Generic::Nil,
        ])
    );
}

#[test]
fn duplicate_keys_are_kept_in_order() {
    assert_eq!(
        from_bytes(&[0x82, 0x01, 0x0a, 0x01, 0x0b]).unwrap(),
        Generic::Dict(vec![
            (Generic::UInt(1), Generic::UInt(10)),
            (Generic::UInt(1), Generic::UInt(11)),
        ])
    );
}

#[test]
fn optional_values() {
    let bytes = [0xc0, 0x07];
    let mut de = Deserializer::new(&bytes);
    assert_eq!(de.deserialize_option().unwrap(), false);
    assert_eq!(de.deserialize_option().unwrap(), true);
    assert_eq!(de.deserialize_any().unwrap(), Token::U8(7));
    assert_eq!(de.deserialize_option().unwrap_err().reason(), Reason::EndOfStream);
}
