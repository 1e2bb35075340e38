//! End-to-end scenarios: concrete wire layouts, round trips, and the error
//! taxonomy.

use alkahest::Error;
use alkahest::Formula;
use alkahest::Value;
use alkahest::deserialize;
use alkahest::deserialize_in_place;
use alkahest::matches_formula;
use alkahest::serialize_or_size;
use alkahest::serialize_to_vec;
use alkahest::serialized_size;
use alkahest::value_size;

fn le(x: u32) -> Vec<u8> {
    x.to_le_bytes().to_vec()
}

fn pair_record() -> Formula {
    Formula::Record(vec![Formula::U32, Formula::U32])
}

fn pair_value(x: u32, y: u32) -> Value {
    Value::Record(vec![Value::U32(x), Value::U32(y)])
}

fn tagged_items() -> Formula {
    Formula::Record(vec![
        Formula::U8,
        Formula::Ref(Box::new(Formula::Slice(Box::new(Formula::U32)))),
    ])
}

fn color_union() -> Formula {
    // a union {unit variant, three-byte variant}
    Formula::Union(vec![
        Formula::Record(vec![]),
        Formula::Record(vec![Formula::U8, Formula::U8, Formula::U8]),
    ])
}

#[test]
fn two_field_fixed_record_layout() {
    let f = pair_record();
    assert!(f.check());
    assert_eq!(f.header_size(), Some(8));
    assert!(f.is_heapless());
    assert!(f.is_exact_size());
    let v = pair_value(3, 4);
    assert!(matches_formula(&f, &v));
    let bytes = serialize_to_vec(&f, &v);
    // [total=16][stack=8][y=4][x=3]: headers are consumed from the tail in
    // declaration order, so the first field's payload is the last 4 bytes.
    let mut expect = le(16);
    expect.extend(le(8));
    expect.extend(le(4));
    expect.extend(le(3));
    assert_eq!(bytes, expect);
    // the header is exactly 8 bytes and there is no body
    assert_eq!(bytes.len(), 16);
    let (back, end) = deserialize(&f, &bytes).unwrap();
    assert_eq!(end, 16);
    assert_eq!(back, pair_value(3, 4));
}

#[test]
fn record_with_indirect_slice_layout() {
    let f = tagged_items();
    assert!(f.check());
    // header: tag inline plus an (address, size) pair for the items
    assert_eq!(f.header_size(), Some(9));
    assert!(!f.is_heapless());
    let v = Value::Record(vec![
        Value::U8(1),
        Value::List(vec![Value::U32(10), Value::U32(20), Value::U32(30)]),
    ]);
    assert!(matches_formula(&f, &v));
    let s = serialized_size(&f, &v).unwrap();
    assert_eq!(s.stack, 9);
    assert_eq!(s.heap, 12);
    let bytes = serialize_to_vec(&f, &v);
    // body holds 12 bytes for [10, 20, 30]; elements are consumed from the
    // tail of their region, so byte order is 30, 20, 10.
    let mut expect = le(29);
    expect.extend(le(9));
    expect.extend(le(30));
    expect.extend(le(20));
    expect.extend(le(10));
    expect.extend(le(20)); // address: end of the items region
    expect.extend(le(12)); // size of the items region
    expect.push(1); // the tag byte, first field, at the tail
    assert_eq!(bytes, expect);
    let (back, end) = deserialize(&f, &bytes).unwrap();
    assert_eq!(end, 29);
    assert_eq!(
        back,
        Value::Record(vec![
            Value::U8(1),
            Value::List(vec![Value::U32(10), Value::U32(20), Value::U32(30)]),
        ])
    );
}

#[test]
fn union_unit_variant_layout() {
    let f = color_union();
    assert!(f.check());
    // 4-byte tag plus the largest variant (3 bytes)
    assert_eq!(f.header_size(), Some(7));
    let red = Value::Variant(0, Box::new(Value::Record(vec![])));
    let bytes = serialize_to_vec(&f, &red);
    // tag 0 and no field bytes; the header is padded to the largest variant
    let mut expect = le(15);
    expect.extend(le(7));
    expect.extend(vec![0, 0, 0]); // padding up to the largest variant
    expect.extend(le(0)); // tag
    assert_eq!(bytes, expect);
    let (back, _) = deserialize(&f, &bytes).unwrap();
    assert_eq!(back, Value::Variant(0, Box::new(Value::Record(vec![]))));
}

#[test]
fn union_payload_variant_layout() {
    let f = color_union();
    let rgb = Value::Variant(
        1,
        Box::new(Value::Record(vec![
            Value::U8(10),
            Value::U8(20),
            Value::U8(30),
        ])),
    );
    assert!(matches_formula(&f, &rgb));
    let bytes = serialize_to_vec(&f, &rgb);
    // tag 1 followed by the 3 field bytes (tail-anchored: 30, 20, 10, tag)
    let mut expect = le(15);
    expect.extend(le(7));
    expect.extend(vec![30, 20, 10]);
    expect.extend(le(1));
    assert_eq!(bytes, expect);
    let (back, _) = deserialize(&f, &bytes).unwrap();
    assert_eq!(
        back,
        Value::Variant(
            1,
            Box::new(Value::Record(vec![
                Value::U8(10),
                Value::U8(20),
                Value::U8(30),
            ]))
        )
    );
}

#[test]
fn union_invalid_tag_rejected() {
    let f = color_union();
    // a message whose stack carries tag 2, outside the declared range
    let mut bytes = le(15);
    bytes.extend(le(7));
    bytes.extend(vec![0, 0, 0]);
    bytes.extend(le(2));
    assert_eq!(deserialize(&f, &bytes), Err(Error::WrongVariant(2)));
}

#[test]
fn address_past_input_is_out_of_bounds() {
    let f = Formula::U32;
    let mut bytes = le(20); // address beyond the 16-byte input
    bytes.extend(le(4));
    bytes.extend(vec![0u8; 8]);
    assert_eq!(deserialize(&f, &bytes), Err(Error::OutOfBounds));
}

#[test]
fn size_beyond_address_is_wrong_address() {
    let f = Formula::U32;
    let mut bytes = le(8); // address 8
    bytes.extend(le(12)); // size 12 > address 8
    bytes.extend(vec![0u8; 8]);
    assert_eq!(deserialize(&f, &bytes), Err(Error::WrongAddress));
}

#[test]
fn short_input_is_out_of_bounds() {
    let f = Formula::U32;
    assert_eq!(deserialize(&f, &[1, 2, 3]), Err(Error::OutOfBounds));
}

#[test]
fn value_size_reads_leading_integer() {
    assert_eq!(value_size(&[1, 2]), None);
    let f = pair_record();
    let bytes = serialize_to_vec(&f, &pair_value(7, 9));
    assert_eq!(value_size(&bytes), Some(16));
}

#[test]
fn round_trip_primitives() {
    for f in [Formula::U8, Formula::U32, Formula::Bool] {
        let v = match f {
            Formula::U8 => Value::U8(200),
            Formula::U32 => Value::U32(0xDEAD_BEEF),
            _ => Value::Bool(true),
        };
        let bytes = serialize_to_vec(&f, &v);
        let (back, end) = deserialize(&f, &bytes).unwrap();
        assert_eq!(end, bytes.len());
        assert_eq!(back, v);
    }
}

#[test]
fn round_trip_nested_reference() {
    // a record whose final field is an indirected record of a slice
    let inner = Formula::Record(vec![
        Formula::U8,
        Formula::Slice(Box::new(Formula::U8)),
    ]);
    let f = Formula::Record(vec![Formula::U32, Formula::Ref(Box::new(inner))]);
    assert!(f.check());
    let v = Value::Record(vec![
        Value::U32(99),
        Value::Record(vec![
            Value::U8(7),
            Value::List(vec![Value::U8(1), Value::U8(2), Value::U8(3)]),
        ]),
    ]);
    assert!(matches_formula(&f, &v));
    let bytes = serialize_to_vec(&f, &v);
    let (back, _) = deserialize(&f, &bytes).unwrap();
    assert_eq!(
        back,
        Value::Record(vec![
            Value::U32(99),
            Value::Record(vec![
                Value::U8(7),
                Value::List(vec![Value::U8(1), Value::U8(2), Value::U8(3)]),
            ]),
        ])
    );
}

#[test]
fn round_trip_slice_of_slices() {
    // length-prefixed, variable-size elements
    let f = Formula::Slice(Box::new(Formula::Slice(Box::new(Formula::U8))));
    assert!(f.check());
    let v = Value::List(vec![
        Value::List(vec![Value::U8(1)]),
        Value::List(vec![]),
        Value::List(vec![Value::U8(2), Value::U8(3)]),
    ]);
    let bytes = serialize_to_vec(&f, &v);
    let (back, _) = deserialize(&f, &bytes).unwrap();
    assert_eq!(
        back,
        Value::List(vec![
            Value::List(vec![Value::U8(1)]),
            Value::List(vec![]),
            Value::List(vec![Value::U8(2), Value::U8(3)]),
        ])
    );
}

#[test]
fn round_trip_zero_size_elements() {
    // each zero-size element still takes one byte so the count survives
    let f = Formula::Slice(Box::new(Formula::Record(vec![])));
    assert!(f.check());
    let v = Value::List(vec![
        Value::Record(vec![]),
        Value::Record(vec![]),
        Value::Record(vec![]),
    ]);
    let bytes = serialize_to_vec(&f, &v);
    assert_eq!(bytes.len(), 8 + 3);
    let (back, _) = deserialize(&f, &bytes).unwrap();
    assert_eq!(
        back,
        Value::List(vec![
            Value::Record(vec![]),
            Value::Record(vec![]),
            Value::Record(vec![]),
        ])
    );
}

#[test]
fn round_trip_unsized_union() {
    // a union with an unsized variant carries no padding
    let f = Formula::Union(vec![
        Formula::U8,
        Formula::Slice(Box::new(Formula::U32)),
    ]);
    assert!(f.check());
    assert_eq!(f.header_size(), None);
    let v = Value::Variant(
        1,
        Box::new(Value::List(vec![Value::U32(5), Value::U32(6)])),
    );
    let bytes = serialize_to_vec(&f, &v);
    let (back, _) = deserialize(&f, &bytes).unwrap();
    assert_eq!(
        back,
        Value::Variant(
            1,
            Box::new(Value::List(vec![Value::U32(5), Value::U32(6)])),
        )
    );
}

#[test]
fn exhaustion_reports_exact_size_then_retry_succeeds() {
    let f = tagged_items();
    let v = Value::Record(vec![
        Value::U8(1),
        Value::List(vec![Value::U32(10), Value::U32(20), Value::U32(30)]),
    ]);
    let direct = serialize_to_vec(&f, &v);
    let n = direct.len();
    // a buffer of size n - 1 is refused with the exact requirement n
    let mut small = vec![0xAAu8; n - 1];
    assert_eq!(serialize_or_size(&f, &v, &mut small), Err(n));
    assert_eq!(small, vec![0xAAu8; n - 1]);
    // retrying with n bytes succeeds and is byte-identical to the direct run
    let mut exact = vec![0xAAu8; n];
    assert_eq!(serialize_or_size(&f, &v, &mut exact), Ok(n));
    assert_eq!(exact, direct);
    // a larger buffer keeps its tail untouched
    let mut large = vec![0xAAu8; n + 3];
    assert_eq!(serialize_or_size(&f, &v, &mut large), Ok(n));
    assert_eq!(&large[..n], &direct[..]);
    assert_eq!(&large[n..], &[0xAA, 0xAA, 0xAA]);
}

#[test]
fn serialized_size_matches_actual_bytes() {
    let f = tagged_items();
    let v = Value::Record(vec![
        Value::U8(1),
        Value::List(vec![Value::U32(10), Value::U32(20), Value::U32(30)]),
    ]);
    let s = serialized_size(&f, &v).unwrap();
    let bytes = serialize_to_vec(&f, &v);
    assert_eq!(bytes.len(), 8 + s.stack + s.heap);
}

#[test]
fn serialized_size_rejects_mismatched_value() {
    let f = pair_record();
    let v = Value::U8(3);
    assert!(!matches_formula(&f, &v));
    assert!(serialized_size(&f, &v).is_none());
}

#[test]
fn deserialize_in_place_overwrites_only_on_success() {
    let f = pair_record();
    let bytes = serialize_to_vec(&f, &pair_value(5, 6));
    let mut place = Value::Bool(false);
    assert_eq!(deserialize_in_place(&f, &mut place, &bytes), Ok(16));
    assert_eq!(place, pair_value(5, 6));
    let mut untouched = Value::Bool(true);
    assert!(deserialize_in_place(&f, &mut untouched, &[0u8; 2]).is_err());
    assert_eq!(untouched, Value::Bool(true));
}

#[test]
fn formula_check_rejects_empty_union() {
    let f = Formula::Union(vec![]);
    assert!(!f.check());
}
