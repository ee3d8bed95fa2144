use corepack::de::{Deserializer, Token};
use corepack::error::Reason;
use corepack::ext_visitor::{ExtField, ExtVisitor};
use corepack::generic::{Generic, GenericVisitor};
use corepack::seq_visitor::SeqVisitor;

#[test]
fn a_visitor_hands_out_what_was_declared() {
    let bytes = [0x94, 0x01, 0x02, 0x03, 0x04, 0x05];
    let mut de = Deserializer::new(&bytes);
    assert_eq!(de.deserialize_any().unwrap(), Token::Array(4));
    let mut seq = SeqVisitor::new(4);
    assert_eq!(seq.size_hint(), 4);
    for expected in 1..=4 {
        assert_eq!(seq.end().unwrap_err().reason(), Reason::ExtraItems);
        assert_eq!(seq.next_element(&mut de).unwrap(), Some(Generic::UInt(expected)));
    }
    assert_eq!(seq.size_hint(), 0);
    assert_eq!(seq.next_element(&mut de).unwrap(), None);
    assert_eq!(seq.visit_item(&mut de).unwrap(), None);
    seq.end().unwrap();
    // the byte after the array is still there
    assert_eq!(de.deserialize_any().unwrap(), Token::U8(5));
}

#[test]
fn stopping_early_leaves_extra_items() {
    let bytes = [0x94, 0x01, 0x02, 0x03, 0x04];
    let mut de = Deserializer::new(&bytes);
    de.deserialize_any().unwrap();
    let mut seq = SeqVisitor::new(4);
    seq.next_element(&mut de).unwrap();
    seq.next_element(&mut de).unwrap();
    assert_eq!(seq.size_hint(), 2);
    assert_eq!(seq.end().unwrap_err().reason(), Reason::ExtraItems);
}

#[test]
fn running_out_of_bytes_ends_the_stream() {
    let bytes = [0x94, 0x01, 0x02, 0x03];
    let mut de = Deserializer::new(&bytes);
    de.deserialize_any().unwrap();
    let mut seq = SeqVisitor::new(4);
    for _ in 0..3 {
        assert!(seq.next_element(&mut de).unwrap().is_some());
    }
    assert_eq!(seq.next_element(&mut de).unwrap_err().reason(), Reason::EndOfStream);
}

#[test]
fn a_map_visitor_counts_keys_and_values() {
    let bytes = [0x82, 0x01, 0x0a, 0x02, 0x0b];
    let mut de = Deserializer::new(&bytes);
    assert_eq!(de.deserialize_any().unwrap(), Token::Dict(2));
    let mut map = SeqVisitor::new(4);
    assert_eq!(map.map_size_hint(), 2);
    assert_eq!(map.next_key(&mut de).unwrap(), Some(Generic::UInt(1)));
    assert_eq!(map.map_size_hint(), 2);
    assert_eq!(map.next_value(&mut de).unwrap(), Generic::UInt(10));
    assert_eq!(map.map_size_hint(), 1);
    assert_eq!(map.next_key(&mut de).unwrap(), Some(Generic::UInt(2)));
    assert_eq!(map.next_value(&mut de).unwrap(), Generic::UInt(11));
    assert_eq!(map.map_size_hint(), 0);
    assert_eq!(map.next_key(&mut de).unwrap(), None);
    assert_eq!(map.next_value(&mut de).unwrap_err().reason(), Reason::EndOfStream);
    map.end().unwrap();
}

#[test]
fn advancing_by_hand() {
    let mut seq = SeqVisitor::new(2);
    assert!(seq.advance());
    assert!(seq.advance());
    assert!(!seq.advance());
    assert!(!seq.advance());
    assert_eq!(seq.size_hint(), 0);
    assert_eq!(SeqVisitor::new(u64::MAX).map_size_hint(), 1 << 63);
}

#[test]
fn an_extension_shows_two_fields() {
    let mut ext = ExtVisitor::new(-4, vec![1, 2, 3]);
    assert_eq!(ext.size_hint(), 2);
    assert_eq!(ext.end().unwrap_err().reason(), Reason::BadLength);
    assert_eq!(ext.next_key(), Some("type"));
    assert_eq!(ext.next_key(), Some("type"));
    assert_eq!(ext.next_value().unwrap(), ExtField::Type(-4));
    assert_eq!(ext.size_hint(), 1);
    assert_eq!(ext.end().unwrap_err().reason(), Reason::BadLength);
    assert_eq!(ext.next_key(), Some("data"));
    assert_eq!(ext.next_value().unwrap(), ExtField::Data(vec![1, 2, 3]));
    assert_eq!(ext.size_hint(), 0);
    assert_eq!(ext.next_key(), None);
    assert_eq!(ext.next_value().unwrap_err().reason(), Reason::EndOfStream);
    assert_eq!(ext.next_value().unwrap_err().reason(), Reason::EndOfStream);
    ext.end().unwrap();
}

#[test]
fn the_generic_visitor_wraps_scalars() {
    let v = GenericVisitor;
    assert_eq!(v.visit_bool(true), Generic::True);
    assert_eq!(v.visit_bool(false), Generic::False);
    assert_eq!(v.visit_i64(-9), Generic::Int(-9));
    assert_eq!(v.visit_u64(9), Generic::UInt(9));
    assert_eq!(v.visit_f32(7), Generic::F32(7));
    assert_eq!(v.visit_f64(8), Generic::F64(8));
    assert_eq!(v.visit_str("s"), Generic::Str("s".into()));
    assert_eq!(v.visit_string("t".into()), Generic::Str("t".into()));
    assert_eq!(v.visit_unit(), Generic::Nil);
    assert_eq!(v.visit_none(), Generic::Nil);
    assert_eq!(v.visit_bytes(&[1]), Generic::Bin(vec![1]));
    assert_eq!(v.visit_byte_buf(vec![2]), Generic::Bin(vec![2]));
    assert_eq!(v.visit_ext(3, vec![4]), Generic::Ext(3, vec![4]));
}

#[test]
fn the_generic_visitor_reads_on_for_containers() {
    let v = GenericVisitor;
    let bytes = [0x01, 0x02, 0x03, 0x04, 0x05];
    let mut de = Deserializer::new(&bytes);
    assert_eq!(v.visit(Token::I16(300), &mut de).unwrap(), Generic::Int(300));
    assert_eq!(v.visit(Token::U8(3), &mut de).unwrap(), Generic::UInt(3));
    assert_eq!(
        v.visit(Token::Ext(1, &[9]), &mut de).unwrap(),
        Generic::Ext(1, vec![9])
    );
    assert_eq!(
        v.visit(Token::Array(1), &mut de).unwrap(),
        Generic::Array(vec![Generic::UInt(1)])
    );
    assert_eq!(
        v.visit(Token::Dict(1), &mut de).unwrap(),
        Generic::Dict(vec![(Generic::UInt(2), Generic::UInt(3))])
    );
    assert_eq!(v.visit_some(&mut de).unwrap(), Generic::UInt(4));
    assert_eq!(v.visit_newtype_struct(&mut de).unwrap(), Generic::UInt(5));
    assert_eq!(v.visit(Token::Array(1), &mut de).unwrap_err().reason(), Reason::EndOfStream);
    assert_eq!(v.visit(Token::Array(0), &mut de).unwrap(), Generic::Array(vec![]));
}

#[test]
fn a_map_with_a_key_too_many_is_refused() {
    let v = GenericVisitor;
    let bytes = [0x01, 0x02, 0x03, 0x04];
    let mut de = Deserializer::new(&bytes);
    assert_eq!(
        v.visit_map(SeqVisitor::new(3), &mut de).unwrap_err().reason(),
        Reason::EndOfStream
    );
    let mut de = Deserializer::new(&bytes);
    assert_eq!(
        v.visit_map(SeqVisitor::new(4), &mut de).unwrap(),
        Generic::Dict(vec![
            (Generic::UInt(1), Generic::UInt(2)),
            (Generic::UInt(3), Generic::UInt(4))
        ])
    );
    let bad = [0x01, 0x02, 0xc1];
    let mut de = Deserializer::new(&bad);
    assert_eq!(v.visit_map(SeqVisitor::new(3), &mut de).unwrap_err().reason(), Reason::BadType);
    let mut de = Deserializer::new(&bytes);
    assert_eq!(
        v.visit_seq(SeqVisitor::new(2), &mut de).unwrap(),
        Generic::Array(vec![Generic::UInt(1), Generic::UInt(2)])
    );
}

#[test]
fn kinds_of_generic_values() {
    let all = [
        Generic::Nil,
        Generic::False,
        Generic::True,
        Generic::Int(-1),
        Generic::UInt(1),
        Generic::F32(0),
        Generic::F64(0),
        Generic::Bin(vec![]),
        Generic::Str(String::new()),
        Generic::Array(vec![]),
        Generic::Dict(vec![]),
        Generic::new_ext(5, vec![6, 7]),
    ];
    for (i, value) in all.iter().enumerate() {
        let answers = [
            value.is_nil(),
            value.is_false(),
            value.is_true(),
            value.is_int(),
            value.is_uint(),
            value.is_f32(),
            value.is_f64(),
            value.is_bin(),
            value.is_str(),
            value.is_array(),
            value.is_map(),
            value.is_ext(),
        ];
        for (j, answer) in answers.iter().enumerate() {
            assert_eq!(*answer, i == j, "value {} asked {}", i, j);
        }
    }
    assert_eq!(all[11].ext_type(), Some(5));
    assert_eq!(all[11].ext_data(), Some(&[6u8, 7][..]));
    assert_eq!(all[7].ext_type(), None);
    assert_eq!(all[7].ext_data(), None);
}

#[test]
fn a_key_without_a_value_in_the_budget() {
    let mut map = SeqVisitor::new(1);
    map.advance_value().unwrap();
    assert_eq!(map.advance_value().unwrap_err().reason(), Reason::EndOfStream);
    assert_eq!(map.size_hint(), 0);
}
