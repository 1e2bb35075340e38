//! Cursor primitives and the lazy element reader.

use alkahest::Deserialize;
use alkahest::Deserializer;
use alkahest::Error;
use alkahest::Formula;
use alkahest::Value;
use alkahest::deserialize_extend_iter;
use alkahest::deserialize_from_iter;
use alkahest::serialize_to_vec;

fn le(x: u32) -> Vec<u8> {
    x.to_le_bytes().to_vec()
}

#[test]
fn new_checks_bounds() {
    let buf = [1u8, 2, 3];
    assert!(Deserializer::new(3, &buf).is_ok());
    assert_eq!(Deserializer::new(4, &buf).err(), Some(Error::OutOfBounds));
}

#[test]
fn read_bytes_consumes_from_tail() {
    let buf = [1u8, 2, 3, 4, 5];
    let mut de = Deserializer::new(4, &buf).unwrap();
    assert_eq!(de.read_bytes(2).unwrap(), &[4, 5]);
    assert_eq!(de.read_bytes(1).unwrap(), &[3]);
    assert_eq!(de.read_bytes(2).err(), Some(Error::WrongLength));
    assert_eq!(de.read_bytes(1).unwrap(), &[2]);
    assert!(de.finish().is_ok());
}

#[test]
fn read_all_bytes_hands_out_the_stack() {
    let buf = [9u8, 8, 7, 6];
    let de = Deserializer::new(2, &buf).unwrap();
    assert_eq!(de.read_all_bytes(), &[7, 6]);
}

#[test]
fn read_auto_reads_wire_integers() {
    let mut buf = vec![0xFFu8];
    buf.extend(le(77));
    let mut de = Deserializer::new(4, &buf).unwrap();
    assert_eq!(de.read_auto(false), Ok(77));
    assert_eq!(de.read_auto(false).err(), Some(Error::WrongLength));
}

#[test]
fn finish_requires_exhausted_stack() {
    let buf = [1u8, 2];
    let de = Deserializer::new(1, &buf).unwrap();
    assert_eq!(de.finish().err(), Some(Error::WrongLength));
}

#[test]
fn deref_validates_the_pair() {
    // window: [body: 2 bytes][address=2][size=1]
    let mut buf = vec![0xAB, 0xCD];
    buf.extend(le(2));
    buf.extend(le(1));
    let de = Deserializer::new(8, &buf).unwrap();
    let inner = de.deref().unwrap();
    assert_eq!(inner.read_all_bytes(), &[0xCD]);
    // an address past the shrunk window is rejected
    let mut bad = vec![0xAB, 0xCD];
    bad.extend(le(5));
    bad.extend(le(1));
    let de = Deserializer::new(8, &bad).unwrap();
    assert_eq!(de.deref().err(), Some(Error::WrongAddress));
    // a size beyond its address is rejected
    let mut bad2 = vec![0xAB, 0xCD];
    bad2.extend(le(1));
    bad2.extend(le(2));
    let de = Deserializer::new(8, &bad2).unwrap();
    assert_eq!(de.deref().err(), Some(Error::WrongAddress));
}

#[test]
fn read_value_and_skip_values() {
    let f = Formula::U32;
    let v = Value::List(vec![Value::U32(10), Value::U32(20), Value::U32(30)]);
    let slice_f = Formula::Slice(Box::new(Formula::U32));
    let bytes = serialize_to_vec(&slice_f, &v);
    // the root region is the slice body: 12 bytes at offsets 8..20
    let mut de = Deserializer::new(12, &bytes[..20]).unwrap();
    assert_eq!(de.read_value(&f, false), Ok(Value::U32(10)));
    de.skip_values(&f, 1).unwrap(); // drops one whole value
    assert_eq!(de.read_value(&f, false), Ok(Value::U32(30)));
    // skipping two values from a fresh cursor lands on the third
    let mut de = Deserializer::new(12, &bytes[..20]).unwrap();
    de.skip_values(&f, 2).unwrap();
    assert_eq!(de.read_value(&f, false), Ok(Value::U32(30)));
    let de2 = Deserializer::new_unchecked(12, &bytes[..20]);
    let mut de2 = de2;
    assert_eq!(de2.skip_values(&f, 100).err(), Some(Error::WrongLength));
    // the cursor is unchanged after the failed skip
    assert_eq!(de2.read_value(&f, false), Ok(Value::U32(10)));
}

#[test]
fn skip_values_zero_size_drops_one_byte_each() {
    let f = Formula::Record(vec![]);
    let slice_f = Formula::Slice(Box::new(Formula::Record(vec![])));
    let v = Value::List(vec![
        Value::Record(vec![]),
        Value::Record(vec![]),
        Value::Record(vec![]),
    ]);
    let bytes = serialize_to_vec(&slice_f, &v);
    let mut de = Deserializer::new(3, &bytes[..11]).unwrap();
    de.skip_values(&f, 2).unwrap();
    let mut it = de.into_iter(&f).unwrap();
    assert_eq!(it.size_hint(), (1, Some(1)));
    assert_eq!(it.next(), Some(Ok(Value::Record(vec![]))));
    assert_eq!(it.next(), None);
}

#[test]
fn iterator_yields_elements_in_order() {
    let elem = Formula::U32;
    let slice_f = Formula::Slice(Box::new(Formula::U32));
    let v = Value::List(vec![Value::U32(10), Value::U32(20), Value::U32(30)]);
    let bytes = serialize_to_vec(&slice_f, &v);
    let de = Deserializer::new(12, &bytes[..20]).unwrap();
    let mut it = de.into_iter(&elem).unwrap();
    assert_eq!(it.size_hint(), (3, Some(3)));
    assert_eq!(it.next(), Some(Ok(Value::U32(10))));
    assert_eq!(it.next(), Some(Ok(Value::U32(20))));
    assert_eq!(it.next(), Some(Ok(Value::U32(30))));
    assert_eq!(it.next(), None);
}

#[test]
fn iterator_count_and_nth() {
    let elem = Formula::U32;
    let slice_f = Formula::Slice(Box::new(Formula::U32));
    let v = Value::List(vec![Value::U32(10), Value::U32(20), Value::U32(30)]);
    let bytes = serialize_to_vec(&slice_f, &v);
    let de = Deserializer::new(12, &bytes[..20]).unwrap();
    let it = de.into_iter(&elem).unwrap();
    assert_eq!(it.count(), 3);
    // nth skips n whole values, then decodes element n
    let de = Deserializer::new(12, &bytes[..20]).unwrap();
    let mut it = de.into_iter(&elem).unwrap();
    assert_eq!(it.nth(2), Some(Ok(Value::U32(30))));
    let de = Deserializer::new(12, &bytes[..20]).unwrap();
    let mut it = de.into_iter(&elem).unwrap();
    assert_eq!(it.nth(0), Some(Ok(Value::U32(10))));
    // a skip consuming the whole window exactly also yields nothing
    let de = Deserializer::new(12, &bytes[..20]).unwrap();
    let mut it = de.into_iter(&elem).unwrap();
    assert_eq!(it.nth(3), None);
    // a skip past the end yields nothing
    let de = Deserializer::new(12, &bytes[..20]).unwrap();
    let mut it = de.into_iter(&elem).unwrap();
    assert_eq!(it.nth(4), None);
}

#[test]
fn iterator_failure_is_terminal() {
    // a window claiming a 10-byte element where only 1 byte remains
    let elem = Formula::Slice(Box::new(Formula::U8));
    let mut buf = vec![0u8];
    buf.extend(le(10));
    let de = Deserializer::new(5, &buf).unwrap();
    let mut it = de.into_iter(&elem).unwrap();
    assert_eq!(it.next(), Some(Err(Error::WrongLength)));
    assert_eq!(it.next(), None);
    assert_eq!(it.next(), None);
}

#[test]
fn from_iter_collects_or_fails() {
    let elem = Formula::U32;
    let slice_f = Formula::Slice(Box::new(Formula::U32));
    let v = Value::List(vec![Value::U32(1), Value::U32(2)]);
    let bytes = serialize_to_vec(&slice_f, &v);
    let de = Deserializer::new(8, &bytes[..16]).unwrap();
    let it = de.into_iter(&elem).unwrap();
    assert_eq!(
        deserialize_from_iter(it),
        Ok(vec![Value::U32(1), Value::U32(2)])
    );
    // a failing stream reports the error and discards everything
    let bad_elem = Formula::Slice(Box::new(Formula::U8));
    let mut buf = vec![0u8];
    buf.extend(le(10));
    let de = Deserializer::new(5, &buf).unwrap();
    let it = de.into_iter(&bad_elem).unwrap();
    assert_eq!(deserialize_from_iter(it), Err(Error::WrongLength));
}

#[test]
fn extend_iter_keeps_the_decoded_prefix() {
    // stack: [bad prefix claiming 9][one-byte element 7][its prefix 1]
    let elem = Formula::Slice(Box::new(Formula::U8));
    let mut buf = Vec::new();
    buf.extend(le(9));
    buf.push(7);
    buf.extend(le(1));
    let de = Deserializer::new(9, &buf).unwrap();
    let it = de.into_iter(&elem).unwrap();
    let mut out = vec![Value::Bool(true)];
    assert_eq!(deserialize_extend_iter(&mut out, it), Err(Error::WrongLength));
    assert_eq!(
        out,
        vec![Value::Bool(true), Value::List(vec![Value::U8(7)])]
    );
}

#[test]
fn deserialize_trait_consumes_a_window() {
    let f = Formula::U32;
    let buf = 42u32.to_le_bytes();
    let de = Deserializer::new(4, &buf).unwrap();
    assert_eq!(Value::deserialize(&f, de), Ok(Value::U32(42)));
    let mut place = Value::Bool(false);
    let de = Deserializer::new(4, &buf).unwrap();
    assert_eq!(place.deserialize_in_place(&f, de), Ok(()));
    assert_eq!(place, Value::U32(42));
}

#[test]
fn zero_size_elements_iterate_one_per_byte() {
    let elem = Formula::Record(vec![]);
    let slice_f = Formula::Slice(Box::new(Formula::Record(vec![])));
    let v = Value::List(vec![Value::Record(vec![]), Value::Record(vec![])]);
    let bytes = serialize_to_vec(&slice_f, &v);
    let de = Deserializer::new(2, &bytes[..10]).unwrap();
    let mut it = de.into_iter(&elem).unwrap();
    assert_eq!(it.size_hint(), (2, Some(2)));
    assert_eq!(it.next(), Some(Ok(Value::Record(vec![]))));
    assert_eq!(it.next(), Some(Ok(Value::Record(vec![]))));
    assert_eq!(it.next(), None);
}
