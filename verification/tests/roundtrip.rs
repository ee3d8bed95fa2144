use corepack::de::Deserializer;
use corepack::error::{Error, Reason};
use corepack::generic::Generic;
use corepack::ser::Serializer;
use corepack::variant_visitor::VariantVisitor;
use corepack::{from_bytes, to_bytes};

#[derive(PartialEq, Eq, Debug)]
enum T {
    A(usize),
    B,
    C(i8, i8),
    D { a: isize, b: String },
}

const VARIANTS: [&str; 4] = ["A", "B", "C", "D"];

fn other(detail: &str) -> Error {
    Error::new(Reason::Other, detail.to_string())
}

fn integer(value: &Generic) -> Result<i64, Error> {
    match value {
        Generic::Int(v) => Ok(*v),
        Generic::UInt(v) if *v <= i64::MAX as u64 => Ok(*v as i64),
        _ => Err(Error::simple(Reason::BadType)),
    }
}

impl T {
    fn encode(&self) -> Result<Vec<u8>, Error> {
        let mut s = Serializer::new();
        match self {
            T::A(v) => s.serialize_newtype_variant(0, &Generic::UInt(*v as u64), true)?,
            T::B => s.serialize_unit_variant(1),
            T::C(x, y) => {
                let mut seq = s.serialize_tuple_variant(2, 2)?;
                seq.serialize_element(&Generic::Int(*x as i64), true, &mut s)?;
                seq.serialize_element(&Generic::Int(*y as i64), true, &mut s)?;
                seq.finish(&mut s)?;
            }
            T::D { a, b } => {
                let mut map = s.serialize_struct_variant(3);
                map.serialize_field("a", &Generic::Int(*a as i64), true)?;
                map.serialize_field("b", &Generic::Str(b.clone()), true)?;
                map.finish(&mut s)?;
            }
        }
        Ok(s.into_bytes())
    }

    fn decode(bytes: &[u8]) -> Result<T, Error> {
        let mut de = Deserializer::new(bytes);
        let mut variant = VariantVisitor::new(&VARIANTS);
        let (_, name) = variant.variant_seed(&mut de)?;
        match name {
            "A" => Ok(T::A(integer(&variant.newtype_variant(&mut de)?)? as usize)),
            "B" => {
                variant.unit_variant(&mut de)?;
                Ok(T::B)
            }
            "C" => {
                let mut seq = variant.tuple_variant(&mut de)?;
                let x = seq.next_element(&mut de)?.ok_or(Error::simple(Reason::BadLength))?;
                let y = seq.next_element(&mut de)?.ok_or(Error::simple(Reason::BadLength))?;
                seq.end()?;
                Ok(T::C(integer(&x)? as i8, integer(&y)? as i8))
            }
            "D" => {
                let mut map = variant.struct_variant(&mut de)?;
                let mut a = None;
                let mut b = None;
                while let Some(key) = map.next_key(&mut de)? {
                    let value = map.next_value(&mut de)?;
                    match (key, value) {
                        (Generic::Str(k), v) if k == "a" => a = Some(integer(&v)? as isize),
                        (Generic::Str(k), Generic::Str(v)) if k == "b" => b = Some(v),
                        _ => return Err(Error::simple(Reason::BadField)),
                    }
                }
                map.end()?;
                match (a, b) {
                    (Some(a), Some(b)) => Ok(T::D { a, b }),
                    _ => Err(Error::simple(Reason::NoField)),
                }
            }
            _ => Err(other("no such variant")),
        }
    }
}

fn test_through(expected: T) {
    let x = expected.encode().expect("Failed to serialize");

    let actual = T::decode(&x).expect("Failed to deserialize");

    assert_eq!(expected, actual);
}

#[test]
fn test_str() {
    let expected = format!("Hello World!");
    let x = to_bytes(&Generic::Str(expected.clone())).expect("Failed to serialize");
    let actual = match from_bytes(&x).expect("Failed to deserialize") {
        Generic::Str(s) => s,
        other => panic!("not a string: {:?}", other),
    };
    assert_eq!(expected, actual);
}

#[test]
fn test_enum() {
    test_through(T::B)
}

#[test]
fn test_enum_newtype() {
    test_through(T::A(42))
}

#[test]
fn test_enum_tuple() {
    test_through(T::C(-3, 22))
}

#[test]
fn test_enum_struct() {
    test_through(T::D { a: 9001, b: "Hello world!".into() })
}

#[test]
fn variants_on_the_wire() {
    assert_eq!(T::A(42).encode().unwrap(), [0x92, 0x00, 0x2a]);
    assert_eq!(T::B.encode().unwrap(), [0x92, 0x01, 0xc0]);
    assert_eq!(T::C(-3, 22).encode().unwrap(), [0x92, 0x02, 0x92, 0xfd, 0x16]);
    let mut expected = vec![0x92, 0x03, 0x82, 0xa1, b'a', 0xd1, 0x23, 0x29, 0xa1, b'b', 0xac];
    expected.extend_from_slice(b"Hello world!");
    assert_eq!(T::D { a: 9001, b: "Hello world!".into() }.encode().unwrap(), expected);
}

#[test]
fn a_variant_is_a_sequence_of_index_and_payload() {
    // what was written for C(-3, 22) reads as [2, [-3, 22]]
    let bytes = T::C(-3, 22).encode().unwrap();
    assert_eq!(
        from_bytes(&bytes).unwrap(),
        Generic::Array(vec![
            Generic::UInt(2),
            Generic::Array(vec![Generic::Int(-3), Generic::UInt(22)]),
        ])
    );
}

#[test]
fn an_index_outside_the_table_is_refused() {
    assert_eq!(T::decode(&[0x92, 0x04, 0xc0]).unwrap_err().reason(), Reason::BadVariant);
    assert_eq!(T::decode(&[0x92, 0xff, 0xc0]).unwrap_err().reason(), Reason::BadVariant);
    assert_eq!(T::decode(&[0x92, 0xcd, 0x01, 0x00, 0xc0]).unwrap_err().reason(), Reason::BadVariant);
    assert_eq!(T::decode(&[0x92, 0x03, 0x80]).unwrap_err().reason(), Reason::NoField);
}

#[test]
fn a_variant_of_another_shape_is_refused() {
    assert_eq!(T::decode(&[0x01]).unwrap_err().reason(), Reason::BadType);
    assert_eq!(T::decode(&[0x91, 0x01]).unwrap_err().reason(), Reason::BadLength);
    assert_eq!(T::decode(&[0x93, 0x01, 0xc0, 0xc0]).unwrap_err().reason(), Reason::BadLength);
    assert_eq!(T::decode(&[0x92, 0xa1, b'B', 0xc0]).unwrap_err().reason(), Reason::BadType);
    assert_eq!(T::decode(&[0x92, 0x01, 0x00]).unwrap_err().reason(), Reason::BadType);
    assert_eq!(T::decode(&[0x92, 0x02, 0x80]).unwrap_err().reason(), Reason::BadType);
    assert_eq!(T::decode(&[0x92, 0x03, 0x90]).unwrap_err().reason(), Reason::BadType);
    assert_eq!(T::decode(&[0x92]).unwrap_err().reason(), Reason::EndOfStream);
    assert_eq!(T::decode(&[0x92, 0x01]).unwrap_err().reason(), Reason::EndOfStream);
    assert_eq!(T::decode(&[]).unwrap_err().reason(), Reason::EndOfStream);
}

#[test]
fn a_variant_has_two_elements_and_no_more() {
    let bytes = [0x92, 0x01, 0xc0, 0xc0, 0xc0];
    let mut de = Deserializer::new(&bytes);
    let mut variant = VariantVisitor::new(&VARIANTS);
    assert_eq!(variant.variant_seed(&mut de).unwrap(), (1, "B"));
    variant.unit_variant(&mut de).unwrap();
    assert_eq!(variant.unit_variant(&mut de).unwrap_err().reason(), Reason::EndOfStream);
    assert_eq!(variant.newtype_variant(&mut de).unwrap_err().reason(), Reason::EndOfStream);
    assert_eq!(variant.tuple_variant(&mut de).unwrap_err().reason(), Reason::EndOfStream);
    assert_eq!(variant.struct_variant(&mut de).unwrap_err().reason(), Reason::EndOfStream);
    assert_eq!(variant.variant_seed(&mut de).unwrap_err().reason(), Reason::EndOfStream);
}

fn through(value: Generic) -> Generic {
    from_bytes(&to_bytes(&value).unwrap()).unwrap()
}

#[test]
fn values_come_back() {
    for value in [
        Generic::Nil,
        Generic::False,
        Generic::True,
        Generic::UInt(0),
        Generic::UInt(127),
        Generic::UInt(128),
        Generic::UInt(65536),
        Generic::UInt(u64::MAX),
        Generic::Int(-1),
        Generic::Int(-33),
        Generic::Int(-129),
        Generic::Int(-32769),
        Generic::Int(i64::MIN),
        Generic::Int(304),
        Generic::Int(70000),
        Generic::Int(i64::MAX),
        Generic::F32(1.5f32.to_bits()),
        Generic::F64(f64::NAN.to_bits()),
        Generic::Bin(vec![]),
        Generic::Bin(vec![1; 300]),
        Generic::Str(String::new()),
        Generic::Str("h\u{e9}llo \u{1f600}".into()),
        Generic::Str("z".repeat(70000)),
        Generic::Ext(-7, vec![]),
        Generic::Ext(7, vec![1, 2, 3, 4]),
        Generic::Ext(7, vec![5; 17]),
        Generic::Array(vec![]),
        Generic::Dict(vec![]),
        Generic::Array(vec![
            Generic::Array(vec![Generic::Nil; 20]),
            Generic::Dict(vec![(Generic::Int(-1), Generic::Ext(1, vec![2]))]),
        ]),
    ] {
        assert_eq!(through(value.clone()), value);
    }
}

#[test]
fn small_signed_integers_come_back_unsigned() {
    assert_eq!(through(Generic::Int(0)), Generic::UInt(0));
    assert_eq!(through(Generic::Int(5)), Generic::UInt(5));
    assert_eq!(through(Generic::Int(200)), Generic::UInt(200));
    assert_eq!(through(Generic::Int(255)), Generic::UInt(255));
    assert_eq!(through(Generic::Int(256)), Generic::Int(256));
    assert_eq!(through(Generic::Int(32767)), Generic::Int(32767));
    assert_eq!(through(Generic::Int(32768)), Generic::UInt(32768));
    assert_eq!(through(Generic::Int(65535)), Generic::UInt(65535));
    assert_eq!(through(Generic::Int(65536)), Generic::Int(65536));
    assert_eq!(through(Generic::Int(0x8000_0000)), Generic::UInt(0x8000_0000));
    assert_eq!(through(Generic::Int(0xffff_ffff)), Generic::UInt(0xffff_ffff));
    assert_eq!(through(Generic::Int(0x1_0000_0000)), Generic::Int(0x1_0000_0000));
    assert_eq!(
        through(Generic::Array(vec![Generic::Int(1), Generic::Int(-1)])),
        Generic::Array(vec![Generic::UInt(1), Generic::Int(-1)])
    );
}

#[test]
fn a_map_comes_back_whatever_the_order_of_its_keys() {
    let find = |map: &Generic, key: &str| match map {
        Generic::Dict(pairs) => pairs
            .iter()
            .find(|(k, _)| *k == Generic::Str(key.into()))
            .map(|(_, v)| v.clone()),
        _ => None,
    };
    let entry = |k: &str, v: u64| (Generic::Str(k.into()), Generic::UInt(v));
    let orders = [
        vec![entry("one", 1), entry("two", 2), entry("three", 3)],
        vec![entry("three", 3), entry("one", 1), entry("two", 2)],
        vec![entry("two", 2), entry("three", 3), entry("one", 1)],
    ];
    for order in orders {
        let back = through(Generic::Dict(order));
        assert_eq!(find(&back, "one"), Some(Generic::UInt(1)));
        assert_eq!(find(&back, "two"), Some(Generic::UInt(2)));
        assert_eq!(find(&back, "three"), Some(Generic::UInt(3)));
        assert!(matches!(&back, Generic::Dict(pairs) if pairs.len() == 3));
    }
}

#[test]
fn a_generic_tree_has_the_leaves_of_what_was_written() {
    // a record of a name, a list of scores and a flag, written field by field
    let mut s = Serializer::new();
    let mut map = s.serialize_struct(3);
    map.serialize_field("name", &Generic::Str("ada".into()), true).unwrap();
    map.serialize_field(
        "scores",
        &Generic::Array(vec![Generic::Int(-2), Generic::UInt(40000)]),
        true,
    )
    .unwrap();
    map.serialize_field("ok", &Generic::True, true).unwrap();
    map.finish(&mut s).unwrap();
    assert_eq!(
        from_bytes(s.as_slice()).unwrap(),
        Generic::Dict(vec![
            (Generic::Str("name".into()), Generic::Str("ada".into())),
            (
                Generic::Str("scores".into()),
                Generic::Array(vec![Generic::Int(-2), Generic::UInt(40000)])
            ),
            (Generic::Str("ok".into()), Generic::True),
        ])
    );
}

#[test]
fn a_clone_is_equal() {
    let value = Generic::Array(vec![
        Generic::Dict(vec![(Generic::Str("k".into()), Generic::Bin(vec![1]))]),
        Generic::Ext(1, vec![2]),
        Generic::F64(3),
    ]);
    assert_eq!(value.clone(), value);
}

#[test]
fn an_encoding_cut_short_ends_the_stream() {
    let values = [
        Generic::UInt(0x1234_5678),
        Generic::Int(-40_000),
        Generic::F64(7),
        Generic::Str("h\u{e9}llo".into()),
        Generic::Bin(vec![3; 300]),
        Generic::Ext(9, vec![1, 2, 3]),
        Generic::Array(vec![Generic::Str("ab".into()), Generic::Array(vec![Generic::Nil; 17])]),
        Generic::Dict(vec![(Generic::Str("k".into()), Generic::Ext(1, vec![0; 4]))]),
    ];
    for value in values {
        let bytes = to_bytes(&value).unwrap();
        for k in 0..bytes.len() {
            assert_eq!(
                from_bytes(&bytes[..k]).unwrap_err().reason(),
                Reason::EndOfStream,
                "{:?} cut to {} bytes",
                value,
                k
            );
        }
        assert_eq!(from_bytes(&bytes).unwrap(), value);
        let mut longer = bytes.clone();
        longer.extend_from_slice(&[0xc1, 0xff]);
        assert_eq!(from_bytes(&longer).unwrap(), value);
    }
}

#[test]
fn no_form_of_an_integer_is_shorter_than_the_written_one() {
    // the same number in every form that holds it
    let forms: [(i64, &[&[u8]]); 4] = [
        (5, &[&[0x05], &[0xcc, 5], &[0xd0, 5], &[0xcd, 0, 5], &[0xd1, 0, 5], &[0xce, 0, 0, 0, 5]]),
        (-5, &[&[0xfb], &[0xd0, 0xfb], &[0xd1, 0xff, 0xfb], &[0xd2, 0xff, 0xff, 0xff, 0xfb]]),
        (200, &[&[0xcc, 200], &[0xd1, 0, 200], &[0xcd, 0, 200], &[0xd2, 0, 0, 0, 200]]),
        (-200, &[&[0xd1, 0xff, 0x38], &[0xd2, 0xff, 0xff, 0xff, 0x38]]),
    ];
    for (number, encodings) in forms {
        let mut s = Serializer::new();
        s.serialize_signed(number);
        let written = s.into_bytes();
        for form in encodings {
            let read = match from_bytes(form).unwrap() {
                Generic::Int(v) => v,
                Generic::UInt(v) => v as i64,
                other => panic!("not an integer: {:?}", other),
            };
            assert_eq!(read, number);
            assert!(written.len() <= form.len());
        }
        assert_eq!(written, encodings[0]);
    }
}
