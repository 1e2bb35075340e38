//! Fast total-size estimation for sequences, as single byte counts.
//!
//! These mirror the estimators in [`crate::iter`], but report one combined
//! byte total instead of a `(stack, heap)` pair, and additionally demand an
//! exact-size element formula for the count-times-slot rule.

use vstd::prelude::*;

use crate::formula::Formula;
use crate::formula::MAX_WIRE_SIZE;
use crate::iter::ITER_UPPER;
use crate::serialize::try_elems_sizes;
use crate::value::Value;
use crate::value::elems_heap;
use crate::value::elems_stack;
use crate::value::lemma_heapless_zero_elems;
use crate::value::lemma_sized_elems_stack;
use crate::value::sized_slot;
use crate::value::vmatch_elems;

verus! {

broadcast use vstd::seq::group_seq_axioms, vstd::std_specs::vec::group_vec_axioms;

/// Fast total size of a sequence source known by its element-count bounds;
/// see [`default_iter_fast_sizes_unchecked`].
pub fn default_iter_fast_sizes(f: &Formula, lower: usize, upper: Option<usize>) -> (r: Option<
    usize,
>)
    requires
        f.wf(),
    ensures
        r is Some <==> f.exact() && f.heapless() && f.hsize() is Some && upper == Some(lower)
            && lower * sized_slot(*f) <= usize::MAX,
        r matches Some(n) ==> n == lower * sized_slot(*f),
{
    default_iter_fast_sizes_unchecked(f, lower, upper)
}

/// Fast total size of a sequence source known only by its element-count
/// bounds: the count times the per-element slot, available exactly when
/// the element formula is exact, heapless and of fixed size, and the
/// bounds agree.
pub fn default_iter_fast_sizes_unchecked(f: &Formula, lower: usize, upper: Option<usize>) -> (r:
    Option<usize>)
    requires
        f.wf(),
    ensures
        r is Some <==> f.exact() && f.heapless() && f.hsize() is Some && upper == Some(lower)
            && lower * sized_slot(*f) <= usize::MAX,
        r matches Some(n) ==> n == lower * sized_slot(*f),
{
    if !f.is_exact_size() {
        return None;
    }
    match crate::iter::default_iter_fast_sizes(f, lower, upper) {
        Some(s) => Some(s.stack),
        None => None,
    }
}

/// Fast total size of an owned sequence of values; see
/// [`default_iter_fast_sizes_by_ref`].
pub fn default_iter_fast_sizes_owned(f: &Formula, values: Vec<Value>) -> (r: Option<usize>)
    requires
        f.wf(),
    ensures
        r matches Some(n) ==> n == elems_stack(*f, values@) + elems_heap(*f, values@),
        f.exact() && f.heapless() && f.hsize() is Some && values@.len() * sized_slot(*f)
            <= usize::MAX ==> r is Some,
        values@.len() <= ITER_UPPER && vmatch_elems(*f, values@) && elems_stack(*f, values@)
            + elems_heap(*f, values@) <= MAX_WIRE_SIZE ==> r is Some,
        !(f.exact() && f.heapless() && f.hsize() is Some) && values@.len() > ITER_UPPER ==> r
            is None,
{
    default_iter_fast_sizes_by_ref(f, &values)
}

/// Fast total size of a borrowed sequence of values: the count-times-slot
/// rule when the element formula is exact, heapless and of fixed size,
/// else an element-by-element sum for at most [`ITER_UPPER`] elements.
pub fn default_iter_fast_sizes_by_ref(f: &Formula, values: &Vec<Value>) -> (r: Option<usize>)
    requires
        f.wf(),
    ensures
        r matches Some(n) ==> n == elems_stack(*f, values@) + elems_heap(*f, values@),
        f.exact() && f.heapless() && f.hsize() is Some && values@.len() * sized_slot(*f)
            <= usize::MAX ==> r is Some,
        values@.len() <= ITER_UPPER && vmatch_elems(*f, values@) && elems_stack(*f, values@)
            + elems_heap(*f, values@) <= MAX_WIRE_SIZE ==> r is Some,
        !(f.exact() && f.heapless() && f.hsize() is Some) && values@.len() > ITER_UPPER ==> r
            is None,
{
    if f.is_exact_size() && f.is_heapless() {
        match f.header_size() {
            Some(_) => {
                proof {
                    lemma_sized_elems_stack(*f, values@);
                    lemma_heapless_zero_elems(*f, values@);
                }
                return default_iter_fast_sizes_unchecked(
                    f,
                    values.len(),
                    Some(values.len()),
                );
            },
            None => {},
        }
    }
    if values.len() > ITER_UPPER {
        return None;
    }
    proof {
        assert(values@.skip(0) =~= values@);
    }
    match try_elems_sizes(f, values, 0) {
        Some((ss, hh)) => {
            if ss + hh <= usize::MAX as u64 {
                Some((ss + hh) as usize)
            } else {
                None
            }
        },
        None => None,
    }
}

} // verus!
