//! Fast size estimation agrees with the bytes actually written.

use alkahest::Formula;
use alkahest::SerIter;
use alkahest::Value;
use alkahest::serialize_to_vec;

#[test]
fn iter_fast_sizes_for_fixed_elements() {
    let f = Formula::U32;
    let s = alkahest::iter::default_iter_fast_sizes(&f, 3, Some(3)).unwrap();
    assert_eq!(s.stack, 12);
    assert_eq!(s.heap, 0);
    // the estimate is exactly what a serialization of three elements writes
    let slice_f = Formula::Slice(Box::new(Formula::U32));
    let v = Value::List(vec![Value::U32(1), Value::U32(2), Value::U32(3)]);
    let bytes = serialize_to_vec(&slice_f, &v);
    assert_eq!(bytes.len(), 8 + s.stack + s.heap);
}

#[test]
fn iter_fast_sizes_requires_pinned_bounds() {
    let f = Formula::U32;
    assert!(alkahest::iter::default_iter_fast_sizes(&f, 3, Some(4)).is_none());
    assert!(alkahest::iter::default_iter_fast_sizes(&f, 3, None).is_none());
    // an unsized element formula has no fast size
    let g = Formula::Slice(Box::new(Formula::U8));
    assert!(alkahest::iter::default_iter_fast_sizes(&g, 3, Some(3)).is_none());
}

#[test]
fn iter_fast_sizes_zero_size_elements_count_bytes() {
    // a zero-size element still occupies one byte, so the count survives
    let f = Formula::Record(vec![]);
    let s = alkahest::iter::default_iter_fast_sizes(&f, 5, Some(5)).unwrap();
    assert_eq!(s.stack, 5);
    assert_eq!(s.heap, 0);
    let slice_f = Formula::Slice(Box::new(Formula::Record(vec![])));
    let v = Value::List(
        (0..5).map(|_| Value::Record(vec![])).collect(),
    );
    let bytes = serialize_to_vec(&slice_f, &v);
    assert_eq!(bytes.len(), 8 + 5);
}

#[test]
fn ref_iter_fast_sizes_small_fallback() {
    // an unsized element formula falls back to summing at most four elements
    let f = Formula::Slice(Box::new(Formula::U8));
    let values = vec![
        Value::List(vec![Value::U8(1)]),
        Value::List(vec![Value::U8(2), Value::U8(3)]),
    ];
    let s = alkahest::iter::ref_iter_fast_sizes(&f, &values).unwrap();
    // each element: payload plus a 4-byte length prefix
    assert_eq!(s.stack, (1 + 4) + (2 + 4));
    assert_eq!(s.heap, 0);
    let many: Vec<Value> = (0..5).map(|_| Value::List(vec![])).collect();
    assert!(alkahest::iter::ref_iter_fast_sizes(&f, &many).is_none());
}

#[test]
fn owned_iter_fast_sizes_matches_ref() {
    let f = Formula::U8;
    let values = vec![Value::U8(1), Value::U8(2)];
    let owned = alkahest::iter::owned_iter_fast_sizes(&f, values).unwrap();
    assert_eq!(owned.stack, 2);
    assert_eq!(owned.heap, 0);
}

#[test]
fn slice_fast_sizes_demand_exactness() {
    // exact, heapless, fixed-size elements get the count-times-slot rule
    let f = Formula::U32;
    assert_eq!(
        alkahest::slice::default_iter_fast_sizes(&f, 3, Some(3)),
        Some(12)
    );
    assert_eq!(
        alkahest::slice::default_iter_fast_sizes_unchecked(&f, 3, Some(3)),
        Some(12)
    );
    // an inexact element formula is refused by the unchecked rule
    let g = Formula::Ref(Box::new(Formula::U8));
    assert!(alkahest::slice::default_iter_fast_sizes(&g, 3, Some(3)).is_none());
}

#[test]
fn slice_fast_sizes_fallback_sums_totals() {
    // a sized but heapful element formula: four or fewer elements are summed
    let f = Formula::Ref(Box::new(Formula::U8));
    let values = vec![Value::U8(1), Value::U8(2)];
    // each element: an 8-byte pair on the stack and a 1-byte body
    assert_eq!(
        alkahest::slice::default_iter_fast_sizes_by_ref(&f, &values),
        Some(2 * (8 + 1))
    );
    let owned = alkahest::slice::default_iter_fast_sizes_owned(&f, values);
    assert_eq!(owned, Some(18));
}

#[test]
fn ser_iter_reports_exact_bounds() {
    let it = SerIter(vec![Value::U32(1), Value::U32(2)]);
    let s = it.size_hint(&Formula::U32).unwrap();
    assert_eq!(s.stack, 8);
    assert_eq!(s.heap, 0);
}
