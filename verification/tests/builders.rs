use corepack::error::Reason;
use corepack::generic::Generic;
use corepack::map_serializer::MapSerializer;
use corepack::map_variant_serializer::MapVariantSerializer;
use corepack::seq_serializer::SeqSerializer;
use corepack::ser::Serializer;

#[test]
fn a_sequence_of_unknown_size_is_kept_back() {
    let mut out = Serializer::with_output(vec![0xc0]);
    let mut seq = SeqSerializer::new();
    assert!(!seq.should_serialize_directly());
    seq.hint_size(None, &mut out).unwrap();
    seq.serialize_element(&Generic::UInt(5), true, &mut out).unwrap();
    seq.serialize_element(&Generic::Int(-40), true, &mut out).unwrap();
    seq.serialize_encoded(&[0xc3], &mut out).unwrap();
    // nothing has gone out yet
    assert_eq!(out.as_slice(), &[0xc0][..]);
    seq.finish(&mut out).unwrap();
    assert_eq!(out.into_bytes(), [0xc0, 0x93, 0x05, 0xd0, 0xd8, 0xc3]);
}

#[test]
fn a_sequence_of_known_size_goes_out_at_once() {
    let mut out = Serializer::new();
    let mut seq = SeqSerializer::new();
    seq.hint_size(Some(3), &mut out).unwrap();
    assert!(seq.should_serialize_directly());
    assert_eq!(out.as_slice(), &[0x93][..]);
    seq.serialize_element(&Generic::UInt(5), true, &mut out).unwrap();
    assert_eq!(out.as_slice(), &[0x93, 0x05][..]);
    seq.serialize_element(&Generic::Int(-40), true, &mut out).unwrap();
    seq.serialize_encoded(&[0xc3], &mut out).unwrap();
    assert_eq!(out.as_slice(), &[0x93, 0x05, 0xd0, 0xd8, 0xc3][..]);
    seq.finish(&mut out).unwrap();
    assert_eq!(out.into_bytes(), [0x93, 0x05, 0xd0, 0xd8, 0xc3]);
}

#[test]
fn both_ways_write_the_same() {
    let elements: Vec<Generic> = (0..40).map(|i| Generic::Int(i * 7 - 100)).collect();
    let mut direct = Serializer::new();
    let mut seq = direct.serialize_seq(Some(elements.len())).unwrap();
    for e in &elements {
        seq.serialize_element(e, true, &mut direct).unwrap();
    }
    seq.finish(&mut direct).unwrap();
    let mut buffered = Serializer::new();
    let mut seq = buffered.serialize_seq(None).unwrap();
    for e in &elements {
        seq.serialize_element(e, true, &mut buffered).unwrap();
    }
    seq.finish(&mut buffered).unwrap();
    assert_eq!(direct.as_slice(), buffered.as_slice());
    assert_eq!(direct.as_slice()[..3], [0xdc, 0x00, 0x28]);
    assert_eq!(corepack::to_bytes(&Generic::Array(elements)).unwrap(), buffered.into_bytes());
}

#[test]
fn a_count_other_than_announced_is_refused() {
    let mut out = Serializer::new();
    let mut seq = out.serialize_seq_fixed_size(2).unwrap();
    seq.serialize_element(&Generic::Nil, true, &mut out).unwrap();
    assert_eq!(seq.finish(&mut out).unwrap_err().reason(), Reason::BadLength);

    let mut out = Serializer::new();
    let mut seq = out.serialize_tuple(1).unwrap();
    seq.serialize_element(&Generic::Nil, true, &mut out).unwrap();
    seq.serialize_element(&Generic::Nil, true, &mut out).unwrap();
    assert_eq!(seq.finish(&mut out).unwrap_err().reason(), Reason::BadLength);

    let mut out = Serializer::new();
    let seq = out.serialize_tuple_struct(0).unwrap();
    seq.finish(&mut out).unwrap();
    assert_eq!(out.into_bytes(), [0x90]);
}

#[test]
fn a_size_beyond_the_widest_tier_is_too_big() {
    let mut out = Serializer::new();
    let mut seq = SeqSerializer::new();
    let r = seq.hint_size(Some(0x1_0000_0000), &mut out);
    assert_eq!(r.unwrap_err().reason(), Reason::TooBig);
    assert_eq!(out.as_slice(), &[] as &[u8]);
    assert_eq!(
        SeqSerializer::output_sequence_header(0x1_0000_0000, &mut out).unwrap_err().reason(),
        Reason::TooBig
    );
    assert_eq!(
        MapSerializer::output_map_header(0x1_0000_0000, &mut out).unwrap_err().reason(),
        Reason::TooBig
    );
    assert_eq!(out.serialize_seq(Some(usize::MAX)).unwrap_err().reason(), Reason::TooBig);
    assert_eq!(out.serialize_tuple_variant(1, 0x1_0000_0000).unwrap_err().reason(), Reason::TooBig);
    assert_eq!(out.as_slice(), &[] as &[u8]);
    SeqSerializer::output_sequence_header(0xffff_ffff, &mut out).unwrap();
    MapSerializer::output_map_header(0xffff_ffff, &mut out).unwrap();
    assert_eq!(out.into_bytes(), [0xdd, 0xff, 0xff, 0xff, 0xff, 0xdf, 0xff, 0xff, 0xff, 0xff]);
}

#[test]
fn sequence_headers() {
    let header = |n: usize| {
        let mut out = Serializer::new();
        SeqSerializer::output_sequence_header(n, &mut out).unwrap();
        out.into_bytes()
    };
    assert_eq!(header(0), [0x90]);
    assert_eq!(header(4), [0x94]);
    assert_eq!(header(15), [0x9f]);
    assert_eq!(header(16), [0xdc, 0x00, 0x10]);
    assert_eq!(header(17), [0xdc, 0x00, 0x11]);
    assert_eq!(header(65535), [0xdc, 0xff, 0xff]);
    assert_eq!(header(65536), [0xdd, 0x00, 0x01, 0x00, 0x00]);
}

#[test]
fn map_headers() {
    let header = |n: u64| {
        let mut out = Serializer::new();
        MapSerializer::output_map_header(n, &mut out).unwrap();
        out.into_bytes()
    };
    assert_eq!(header(0), [0x80]);
    assert_eq!(header(3), [0x83]);
    assert_eq!(header(15), [0x8f]);
    assert_eq!(header(16), [0xde, 0x00, 0x10]);
    assert_eq!(header(65535), [0xde, 0xff, 0xff]);
    assert_eq!(header(65536), [0xdf, 0x00, 0x01, 0x00, 0x00]);
}

#[test]
fn a_map_counts_pairs() {
    let mut out = Serializer::with_output(vec![0xc0]);
    let mut map = out.serialize_map(None);
    map.serialize_element(&Generic::Str("one".into()), true).unwrap();
    map.serialize_element(&Generic::UInt(1), true).unwrap();
    map.serialize_encoded(&[0xa3, b't', b'w', b'o']).unwrap();
    map.serialize_encoded(&[0x02]).unwrap();
    assert_eq!(out.as_slice(), &[0xc0][..]);
    map.finish(&mut out).unwrap();
    assert_eq!(
        out.into_bytes(),
        [0xc0, 0x82, 0xa3, b'o', b'n', b'e', 0x01, 0xa3, b't', b'w', b'o', 0x02]
    );
}

#[test]
fn a_key_without_a_value_is_refused() {
    let mut out = Serializer::new();
    let mut map = MapSerializer::new();
    map.serialize_element(&Generic::UInt(1), true).unwrap();
    map.serialize_element(&Generic::UInt(2), true).unwrap();
    map.serialize_field_name("k").unwrap();
    assert_eq!(map.finish(&mut out).unwrap_err().reason(), Reason::BadLength);
    assert_eq!(out.as_slice(), &[] as &[u8]);
}

#[test]
fn a_structure_is_a_map_keyed_by_name() {
    let mut out = Serializer::new();
    let mut map = out.serialize_struct(2);
    map.serialize_field("x", &Generic::Int(-1), true).unwrap();
    map.serialize_field("y", &Generic::Ext(4, vec![1]), false).unwrap();
    map.finish(&mut out).unwrap();
    assert_eq!(
        out.into_bytes(),
        [
            0x82, 0xa1, b'x', 0xff, 0xa1, b'y', 0x82, 0xa4, b't', b'y', b'p', b'e', 0x04, 0xa4,
            b'd', b'a', b't', b'a', 0x91, 0x01
        ]
    );
}

#[test]
fn a_wrapper_of_one_field_is_an_array_of_one() {
    let mut out = Serializer::new();
    out.serialize_newtype_struct(&Generic::UInt(9), true).unwrap();
    out.serialize_some(&Generic::UInt(8), true).unwrap();
    assert_eq!(out.into_bytes(), [0x91, 0x09, 0x08]);
}

#[test]
fn a_variant_with_named_fields() {
    let mut out = Serializer::with_output(vec![0xc0]);
    let mut map = MapVariantSerializer::new(300);
    map.serialize_field("a", &Generic::UInt(1), true).unwrap();
    map.serialize_element(&Generic::Str("b".into()), true).unwrap();
    map.serialize_encoded(&[0xc3]).unwrap();
    assert_eq!(out.as_slice(), &[0xc0][..]);
    map.finish(&mut out).unwrap();
    assert_eq!(
        out.into_bytes(),
        [0xc0, 0x92, 0xcd, 0x01, 0x2c, 0x82, 0xa1, b'a', 0x01, 0xa1, b'b', 0xc3]
    );
}

#[test]
fn a_variant_with_a_key_without_a_value_is_refused() {
    let mut out = Serializer::new();
    let mut map = out.serialize_struct_variant(1);
    map.serialize_element(&Generic::Nil, true).unwrap();
    assert_eq!(map.finish(&mut out).unwrap_err().reason(), Reason::BadLength);
    // the opening of the variant had gone out before
    assert_eq!(out.into_bytes(), [0x92, 0x01]);
}

#[test]
fn variants_without_named_fields() {
    let mut out = Serializer::new();
    out.serialize_unit_variant(0);
    out.serialize_newtype_variant(200, &Generic::Str("v".into()), true).unwrap();
    let mut seq = out.serialize_tuple_variant(2, 2).unwrap();
    seq.serialize_element(&Generic::Int(-3), true, &mut out).unwrap();
    seq.serialize_element(&Generic::Int(22), true, &mut out).unwrap();
    seq.finish(&mut out).unwrap();
    assert_eq!(
        out.into_bytes(),
        [0x92, 0x00, 0xc0, 0x92, 0xcc, 0xc8, 0xa1, b'v', 0x92, 0x02, 0x92, 0xfd, 0x16]
    );
}

#[test]
fn what_opens_a_variant() {
    let mut out = Serializer::new();
    out.open_variant(3);
    out.open_variant(70000);
    assert_eq!(out.into_bytes(), [0x92, 0x03, 0x92, 0xce, 0x00, 0x01, 0x11, 0x70]);
}
