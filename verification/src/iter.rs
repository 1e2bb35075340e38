//! Fast size estimation for sequence sources, and collecting lazy readers.
//!
//! A sequence source reports lower and upper bounds on its element count.
//! When the element formula is heapless with a fixed header size and the
//! bounds agree, the total serialized size is the count times the
//! per-element slot, computed without visiting the elements.  For small
//! bounded sources the per-element sizes are summed instead.

use vstd::prelude::*;

use crate::deserialize::DeIter;
use crate::deserialize::Error;
use crate::deserialize::dec_elems;
use crate::deserialize::dec_elems_prefix;
use crate::deserialize::iter_step;
use crate::deserialize::lemma_iter_step_consumes;
use crate::formula::Formula;
use crate::formula::MAX_WIRE_SIZE;
use crate::serialize::Sizes;
use crate::serialize::try_elems_sizes;
use crate::value::Value;
use crate::value::elems_heap;
use crate::value::elems_stack;
use crate::value::lemma_heapless_zero_elems;
use crate::value::lemma_sized_elems_stack;
use crate::value::sized_slot;
use crate::value::vmatch_elems;
use crate::value::vmodels;

verus! {

broadcast use vstd::seq::group_seq_axioms, vstd::std_specs::vec::group_vec_axioms;

/// Upper bound on how many elements a small source may have for the
/// element-by-element size fallback to run.
pub const ITER_UPPER: usize = 4;

/// Fast size of a sequence source known only by its element-count bounds:
/// available exactly when the element formula is heapless with a fixed
/// header size, the bounds agree, and the total fits.
pub fn default_iter_fast_sizes(f: &Formula, lower: usize, upper: Option<usize>) -> (r: Option<
    Sizes,
>)
    requires
        f.wf(),
    ensures
        r is Some <==> f.heapless() && f.hsize() is Some && upper == Some(lower) && lower
            * sized_slot(*f) <= usize::MAX,
        r matches Some(s) ==> s.stack == lower * sized_slot(*f) && s.heap == 0,
{
    if !f.is_heapless() {
        return None;
    }
    let k = match f.header_size() {
        Some(k) => k,
        None => {
            return None;
        },
    };
    match upper {
        Some(u) if u == lower => {
            let slot: usize = if k == 0 {
                1
            } else {
                k
            };
            if lower != 0 && slot > usize::MAX / lower {
                proof {
                    let lo = lower as int;
                    let sl = slot as int;
                    let m = usize::MAX as int;
                    vstd::arithmetic::div_mod::lemma_fundamental_div_mod(m, lo);
                    assert(lo * sl > m) by (nonlinear_arith)
                        requires
                            lo >= 1,
                            sl > m / lo,
                            m >= 0,
                            m / lo >= 0,
                            m == lo * (m / lo) + m % lo,
                            0 <= m % lo < lo,
                    ;
                }
                return None;
            }
            proof {
                if lower != 0 {
                    let lo = lower as int;
                    let sl = slot as int;
                    let m = usize::MAX as int;
                    vstd::arithmetic::div_mod::lemma_fundamental_div_mod(m, lo);
                    assert(lo * sl <= m) by (nonlinear_arith)
                        requires
                            lo >= 1,
                            sl <= m / lo,
                            sl >= 0,
                            m >= 0,
                            m == lo * (m / lo) + m % lo,
                            0 <= m % lo < lo,
                    ;
                }
            }
            Some(
                Sizes {
                    stack: lower * slot,
                    heap: 0,
                },
            )
        },
        _ => None,
    }
}

/// Fast size of a borrowed sequence of values: the count-times-slot rule
/// when it applies, else an element-by-element sum for at most
/// [`ITER_UPPER`] elements.
pub fn ref_iter_fast_sizes(f: &Formula, values: &Vec<Value>) -> (r: Option<Sizes>)
    requires
        f.wf(),
    ensures
        r matches Some(s) ==> s.stack == elems_stack(*f, values@) && s.heap == elems_heap(
            *f,
            values@,
        ),
        f.heapless() && f.hsize() is Some && values@.len() * sized_slot(*f) <= usize::MAX ==> r
            is Some,
        values@.len() <= ITER_UPPER && vmatch_elems(*f, values@) && elems_stack(*f, values@)
            <= MAX_WIRE_SIZE && elems_heap(*f, values@) <= MAX_WIRE_SIZE ==> r is Some,
        !(f.heapless() && f.hsize() is Some) && values@.len() > ITER_UPPER ==> r is None,
{
    let heapless = f.is_heapless();
    let sized = f.header_size();
    if heapless {
        match sized {
            Some(_) => {
                proof {
                    lemma_sized_elems_stack(*f, values@);
                    lemma_heapless_zero_elems(*f, values@);
                }
                return default_iter_fast_sizes(f, values.len(), Some(values.len()));
            },
            None => {},
        }
    }
    if values.len() > ITER_UPPER {
        return None;
    }
    proof {
        assert(values@.skip(0) =~= values@);
    }
    match try_elems_sizes(f, values, 0) {
        Some((ss, hh)) => {
            if ss <= usize::MAX as u64 && hh <= usize::MAX as u64 {
                Some(
                    Sizes {
                        stack: ss as usize,
                        heap: hh as usize,
                    },
                )
            } else {
                None
            }
        },
        None => None,
    }
}

/// Fast size of an owned sequence of values; see [`ref_iter_fast_sizes`].
pub fn owned_iter_fast_sizes(f: &Formula, values: Vec<Value>) -> (r: Option<Sizes>)
    requires
        f.wf(),
    ensures
        r matches Some(s) ==> s.stack == elems_stack(*f, values@) && s.heap == elems_heap(
            *f,
            values@,
        ),
        f.heapless() && f.hsize() is Some && values@.len() * sized_slot(*f) <= usize::MAX ==> r
            is Some,
        values@.len() <= ITER_UPPER && vmatch_elems(*f, values@) && elems_stack(*f, values@)
            <= MAX_WIRE_SIZE && elems_heap(*f, values@) <= MAX_WIRE_SIZE ==> r is Some,
        !(f.heapless() && f.hsize() is Some) && values@.len() > ITER_UPPER ==> r is None,
{
    ref_iter_fast_sizes(f, &values)
}

/// Collects a lazy element reader into a vector: every element on success,
/// or the first decoding failure with all elements discarded.
pub fn deserialize_from_iter(it: DeIter<'_>) -> (r: Result<Vec<Value>, Error>)
    requires
        it.wf(),
    ensures
        match r {
            Ok(vals) => dec_elems(it.elem(), it.window(), it.remaining()) matches Ok(t) && vmodels(
                vals@,
            ) == t.0,
            Err(e) => dec_elems(it.elem(), it.window(), it.remaining()) matches Err(e2) && e == e2,
        },
{
    let ghost elem = it.elem();
    let ghost w0 = it.window();
    let ghost r0 = it.remaining();
    let mut cur = it;
    let mut vals: Vec<Value> = Vec::new();
    proof {
        assert(vmodels(Seq::<Value>::empty()) =~= Seq::<crate::value::ValueModel>::empty());
        match dec_elems(elem, w0, r0) {
            Ok(t) => {
                assert(vmodels(vals@) + t.0 =~= t.0);
            },
            _ => {},
        }
    }
    loop
        invariant
            cur.wf(),
            cur.elem() == elem,
            elem == it.elem(),
            w0 == it.window(),
            r0 == it.remaining(),
            dec_elems(elem, w0, r0) == (match dec_elems(elem, cur.window(), cur.remaining()) {
                Ok(t) => Ok::<_, Error>((vmodels(vals@) + t.0, t.1, t.2)),
                Err(e) => Err(e),
            }),
        decreases cur.remaining(),
    {
        let ghost cw = cur.window();
        let ghost cr = cur.remaining();
        proof {
            lemma_iter_step_consumes(elem, cw, cr);
        }
        match cur.next() {
            None => {
                proof {
                    assert(cr == 0);
                    assert(dec_elems(elem, cw, cr) == Ok::<_, Error>(
                        (Seq::<crate::value::ValueModel>::empty(), cw, cr),
                    ));
                    assert(vmodels(vals@) + Seq::<crate::value::ValueModel>::empty() =~= vmodels(
                        vals@,
                    ));
                }
                return Ok(vals);
            },
            Some(Ok(v)) => {
                let ghost old_vals = vals@;
                vals.push(v);
                proof {
                    crate::value::lemma_vmodels_concat(old_vals, seq![v]);
                    assert(old_vals + seq![v] =~= vals@);
                    assert(vmodels(seq![v]) =~= seq![v@]) by {
                        assert(seq![v].drop_first() =~= Seq::<Value>::empty());
                        assert(vmodels(Seq::<Value>::empty()) =~= Seq::<
                            crate::value::ValueModel,
                        >::empty());
                    }
                    let t = iter_step(elem, cw, cr).unwrap();
                    assert(dec_elems(elem, cw, cr) == (match dec_elems(elem, t.1, t.2) {
                        Ok(u) => Ok::<_, Error>((seq![t.0] + u.0, u.1, u.2)),
                        Err(e) => Err(e),
                    }));
                    assert(vmodels(vals@) =~= vmodels(old_vals) + seq![t.0]);
                    match dec_elems(elem, t.1, t.2) {
                        Ok(u) => {
                            assert(vmodels(old_vals) + (seq![t.0] + u.0) =~= vmodels(vals@) + u.0);
                        },
                        _ => {},
                    }
                }
            },
            Some(Err(e)) => {
                proof {
                    assert(cr > 0);
                    assert(dec_elems(elem, cw, cr) == Err::<
                        (Seq<crate::value::ValueModel>, Seq<u8>, nat),
                        Error,
                    >(e));
                }
                return Err(e);
            },
        }
    }
}

/// Extends a vector with a lazy element reader's items: elements decoded
/// before a failure remain appended, and the failure is reported.
pub fn deserialize_extend_iter(out: &mut Vec<Value>, it: DeIter<'_>) -> (r: Result<(), Error>)
    requires
        it.wf(),
    ensures
        match r {
            Ok(_) => dec_elems(it.elem(), it.window(), it.remaining()) matches Ok(t) && vmodels(
                final(out)@,
            ) == vmodels(old(out)@) + t.0,
            Err(e) => dec_elems(it.elem(), it.window(), it.remaining()) matches Err(e2) && e == e2
                && vmodels(final(out)@) == vmodels(old(out)@) + dec_elems_prefix(
                it.elem(),
                it.window(),
                it.remaining(),
            ),
        },
{
    match deserialize_from_iter_prefix(it) {
        (vals, status) => {
            let mut vals = vals;
            let ghost old_out = out@;
            let ghost added = vals@;
            out.append(&mut vals);
            proof {
                crate::value::lemma_vmodels_concat(old_out, added);
            }
            status
        },
    }
}

/// Collects elements until the stack is exhausted or a decode fails,
/// returning the decoded prefix together with the overall outcome.
fn deserialize_from_iter_prefix(it: DeIter<'_>) -> (r: (Vec<Value>, Result<(), Error>))
    requires
        it.wf(),
    ensures
        match r.1 {
            Ok(_) => dec_elems(it.elem(), it.window(), it.remaining()) matches Ok(t) && vmodels(
                r.0@,
            ) == t.0,
            Err(e) => dec_elems(it.elem(), it.window(), it.remaining()) matches Err(e2) && e == e2
                && vmodels(r.0@) == dec_elems_prefix(it.elem(), it.window(), it.remaining()),
        },
{
    let ghost elem = it.elem();
    let ghost w0 = it.window();
    let ghost r0 = it.remaining();
    let mut cur = it;
    let mut vals: Vec<Value> = Vec::new();
    proof {
        assert(vmodels(Seq::<Value>::empty()) =~= Seq::<crate::value::ValueModel>::empty());
        match dec_elems(elem, w0, r0) {
            Ok(t) => {
                assert(vmodels(vals@) + t.0 =~= t.0);
            },
            _ => {},
        }
        assert(vmodels(vals@) + dec_elems_prefix(elem, w0, r0) =~= dec_elems_prefix(
            elem,
            w0,
            r0,
        ));
    }
    loop
        invariant
            cur.wf(),
            cur.elem() == elem,
            elem == it.elem(),
            w0 == it.window(),
            r0 == it.remaining(),
            dec_elems(elem, w0, r0) == (match dec_elems(elem, cur.window(), cur.remaining()) {
                Ok(t) => Ok::<_, Error>((vmodels(vals@) + t.0, t.1, t.2)),
                Err(e) => Err(e),
            }),
            dec_elems_prefix(elem, w0, r0) == vmodels(vals@) + dec_elems_prefix(
                elem,
                cur.window(),
                cur.remaining(),
            ),
        decreases cur.remaining(),
    {
        let ghost cw = cur.window();
        let ghost cr = cur.remaining();
        proof {
            lemma_iter_step_consumes(elem, cw, cr);
        }
        match cur.next() {
            None => {
                proof {
                    assert(cr == 0);
                    assert(dec_elems(elem, cw, cr) == Ok::<_, Error>(
                        (Seq::<crate::value::ValueModel>::empty(), cw, cr),
                    ));
                    assert(vmodels(vals@) + Seq::<crate::value::ValueModel>::empty() =~= vmodels(
                        vals@,
                    ));
                }
                return (vals, Ok(()));
            },
            Some(Ok(v)) => {
                let ghost old_vals = vals@;
                vals.push(v);
                proof {
                    assert(cr > 0);
                    crate::value::lemma_vmodels_concat(old_vals, seq![v]);
                    assert(old_vals + seq![v] =~= vals@);
                    assert(vmodels(seq![v]) =~= seq![v@]) by {
                        assert(seq![v].drop_first() =~= Seq::<Value>::empty());
                        assert(vmodels(Seq::<Value>::empty()) =~= Seq::<
                            crate::value::ValueModel,
                        >::empty());
                    }
                    let t = iter_step(elem, cw, cr).unwrap();
                    assert(dec_elems(elem, cw, cr) == (match dec_elems(elem, t.1, t.2) {
                        Ok(u) => Ok::<_, Error>((seq![t.0] + u.0, u.1, u.2)),
                        Err(e) => Err(e),
                    }));
                    assert(vmodels(vals@) =~= vmodels(old_vals) + seq![t.0]);
                    match dec_elems(elem, t.1, t.2) {
                        Ok(u) => {
                            assert(vmodels(old_vals) + (seq![t.0] + u.0) =~= vmodels(vals@) + u.0);
                        },
                        _ => {},
                    }
                    assert(dec_elems_prefix(elem, cw, cr) == seq![t.0] + dec_elems_prefix(
                        elem,
                        t.1,
                        t.2,
                    ));
                    assert(vmodels(old_vals) + (seq![t.0] + dec_elems_prefix(elem, t.1, t.2))
                        =~= vmodels(vals@) + dec_elems_prefix(elem, t.1, t.2));
                }
            },
            Some(Err(e)) => {
                proof {
                    assert(cr > 0);
                    assert(dec_elems(elem, cw, cr) == Err::<
                        (Seq<crate::value::ValueModel>, Seq<u8>, nat),
                        Error,
                    >(e));
                    assert(dec_elems_prefix(elem, cw, cr) =~= Seq::<
                        crate::value::ValueModel,
                    >::empty());
                    assert(vmodels(vals@) + Seq::<crate::value::ValueModel>::empty() =~= vmodels(
                        vals@,
                    ));
                }
                return (vals, Err(e));
            },
        }
    }
}

/// A sequence source wrapper holding already-collected elements, carrying
/// its exact count bounds.
#[derive(Debug, PartialEq, Eq)]
pub struct SerIter(pub Vec<Value>);

impl SerIter {
    /// The fast size of the wrapped sequence under element formula `f`.
    pub fn size_hint(&self, f: &Formula) -> (r: Option<Sizes>)
        requires
            f.wf(),
        ensures
            r is Some <==> f.heapless() && f.hsize() is Some && self.0@.len() * sized_slot(*f)
                <= usize::MAX,
            r matches Some(s) ==> s.stack == self.0@.len() * sized_slot(*f) && s.heap == 0,
    {
        default_iter_fast_sizes(f, self.0.len(), Some(self.0.len()))
    }
}

} // verus!
