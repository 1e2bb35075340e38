//! The write protocol.
//!
//! An encoded message is laid out as
//! `[total: u32][stack: u32][heap bytes][stack bytes]`: the leading
//! `(address, size)` pair points at the root value, whose header ("stack")
//! bytes sit at the tail of the message and are consumed from the tail by
//! the reader, while bodies ("heap") grow forward from the front and are
//! addressed absolutely from the start of the buffer.
//!
//! Bodies are placed field by field in declaration order; headers are
//! consumed in declaration order from the tail, so the first field's header
//! bytes are the last bytes of the enclosing window.

use vstd::prelude::*;

use crate::formula::Formula;
use crate::formula::MAX_WIRE_SIZE;
use crate::formula::SIZE_STACK;
use crate::formula::VARIANT_SIZE;
use crate::formula::lemma_all_wf;
use crate::value::Value;
use crate::value::elem_slot;
use crate::value::elems_heap;
use crate::value::elems_stack;
use crate::value::encodable;
use crate::value::field_slot;
use crate::value::fields_heap;
use crate::value::fields_stack;
use crate::value::heap_size;
use crate::value::lemma_sized_stack;
use crate::value::stack_size;
use crate::value::vmatch;
use crate::value::vmatch_all;
use crate::value::vmatch_elems;
use vstd::bytes::spec_u32_to_le_bytes;

verus! {

broadcast use vstd::seq::group_seq_axioms, vstd::std_specs::vec::group_vec_axioms;

/// A running pair of byte totals, accumulated while sizing or writing:
/// header ("stack") bytes and body ("heap") bytes.
#[derive(Clone, Copy, Debug, PartialEq, Eq)]
pub struct Sizes {
    /// Header bytes.
    pub stack: usize,
    /// Body bytes.
    pub heap: usize,
}

/// A sequence of `n` zero bytes, used to pad fixed-size union headers up to
/// their largest variant.
pub open spec fn zeros(n: nat) -> Seq<u8> {
    Seq::new(n, |i: int| 0u8)
}

/// Header ("stack") bytes of `v` under `f`, with the value's bodies placed
/// at absolute offset `base` of the enclosing buffer.
pub open spec fn enc_stack(f: Formula, v: Value, base: int) -> Seq<u8>
    decreases v, f, 0int,
{
    match f {
        Formula::U8 => match v {
            Value::U8(b) => seq![b],
            _ => Seq::empty(),
        },
        Formula::U32 => match v {
            Value::U32(x) => spec_u32_to_le_bytes(x),
            _ => Seq::empty(),
        },
        Formula::Bool => match v {
            Value::Bool(b) => seq![
                if b {
                    1u8
                } else {
                    0u8
                },
            ],
            _ => Seq::empty(),
        },
        Formula::Record(fs) => match v {
            Value::Record(xs) => enc_fields_stack(fs@, xs@, base),
            _ => Seq::empty(),
        },
        Formula::Union(vs) => match v {
            Value::Variant(tag, val) => if (tag as int) < vs@.len() {
                match Formula::variants_max(vs@) {
                    Some(m) => zeros((m - stack_size(vs@[tag as int], *val)) as nat) + enc_stack(
                        vs@[tag as int],
                        *val,
                        base,
                    ) + spec_u32_to_le_bytes(tag),
                    None => enc_stack(vs@[tag as int], *val, base) + spec_u32_to_le_bytes(tag),
                }
            } else {
                Seq::empty()
            },
            _ => Seq::empty(),
        },
        Formula::Slice(e) => match v {
            Value::List(xs) => enc_elems_stack(*e, xs@, base),
            _ => Seq::empty(),
        },
        Formula::Ref(e) => spec_u32_to_le_bytes(
            (base + heap_size(*e, v) + stack_size(*e, v)) as u32,
        ) + spec_u32_to_le_bytes(stack_size(*e, v) as u32),
    }
}

/// The bytes a non-final record field contributes to its record's header:
/// the field's header bytes, followed (at the tail) by a length prefix when
/// the field is unsized.
pub open spec fn enc_field_slot(f: Formula, v: Value, base: int) -> Seq<u8>
    decreases v, f, 1int,
{
    match f.hsize() {
        Some(_) => enc_stack(f, v, base),
        None => enc_stack(f, v, base) + spec_u32_to_le_bytes(stack_size(f, v) as u32),
    }
}

/// The bytes one sequence element contributes: a zero-size element still
/// takes one filler byte so counts stay recoverable.
pub open spec fn enc_elem_slot(f: Formula, v: Value, base: int) -> Seq<u8>
    decreases v, f, 1int,
{
    match f.hsize() {
        Some(k) => if k == 0 {
            seq![0u8]
        } else {
            enc_stack(f, v, base)
        },
        None => enc_stack(f, v, base) + spec_u32_to_le_bytes(stack_size(f, v) as u32),
    }
}

/// Header bytes of a field list.  Fields are consumed from the tail in
/// declaration order, so the first field's slot comes last; bodies are
/// placed in declaration order, so each later field's `base` moves past the
/// earlier fields' heap bytes.
pub open spec fn enc_fields_stack(fs: Seq<Formula>, xs: Seq<Value>, base: int) -> Seq<u8>
    decreases xs, fs, 2int,
{
    if fs.len() == 0 || xs.len() == 0 {
        Seq::empty()
    } else if fs.len() == 1 {
        enc_stack(fs[0], xs[0], base)
    } else {
        enc_fields_stack(fs.drop_first(), xs.drop_first(), base + heap_size(fs[0], xs[0]))
            + enc_field_slot(fs[0], xs[0], base)
    }
}

/// Header bytes of a sequence of elements, first element at the tail.
pub open spec fn enc_elems_stack(e: Formula, xs: Seq<Value>, base: int) -> Seq<u8>
    decreases xs, e, 2int,
{
    if xs.len() == 0 {
        Seq::empty()
    } else {
        enc_elems_stack(e, xs.drop_first(), base + heap_size(e, xs[0])) + enc_elem_slot(
            e,
            xs[0],
            base,
        )
    }
}

/// Body ("heap") bytes of `v` under `f`, placed at absolute offset `base`.
/// An indirection places the referenced value's bodies first and then its
/// header, so the stored address points just past that header.
pub open spec fn enc_heap(f: Formula, v: Value, base: int) -> Seq<u8>
    decreases v, f, 0int,
{
    match f {
        Formula::U8 => Seq::empty(),
        Formula::U32 => Seq::empty(),
        Formula::Bool => Seq::empty(),
        Formula::Record(fs) => match v {
            Value::Record(xs) => enc_fields_heap(fs@, xs@, base),
            _ => Seq::empty(),
        },
        Formula::Union(vs) => match v {
            Value::Variant(tag, val) => if (tag as int) < vs@.len() {
                enc_heap(vs@[tag as int], *val, base)
            } else {
                Seq::empty()
            },
            _ => Seq::empty(),
        },
        Formula::Slice(e) => match v {
            Value::List(xs) => enc_elems_heap(*e, xs@, base),
            _ => Seq::empty(),
        },
        Formula::Ref(e) => enc_heap(*e, v, base) + enc_stack(*e, v, base),
    }
}

/// Body bytes of a field list, in declaration order.
pub open spec fn enc_fields_heap(fs: Seq<Formula>, xs: Seq<Value>, base: int) -> Seq<u8>
    decreases xs, fs, 1int,
{
    if fs.len() == 0 || xs.len() == 0 {
        Seq::empty()
    } else {
        enc_heap(fs[0], xs[0], base) + enc_fields_heap(
            fs.drop_first(),
            xs.drop_first(),
            base + heap_size(fs[0], xs[0]),
        )
    }
}

/// Body bytes of a sequence of elements, in order.
pub open spec fn enc_elems_heap(e: Formula, xs: Seq<Value>, base: int) -> Seq<u8>
    decreases xs, e, 1int,
{
    if xs.len() == 0 {
        Seq::empty()
    } else {
        enc_heap(e, xs[0], base) + enc_elems_heap(e, xs.drop_first(), base + heap_size(e, xs[0]))
    }
}

/// The complete encoded message: the leading `(address, size)` pair, then
/// all bodies, then the root header at the tail.
pub open spec fn enc_message(f: Formula, v: Value) -> Seq<u8> {
    spec_u32_to_le_bytes((8 + heap_size(f, v) + stack_size(f, v)) as u32) + spec_u32_to_le_bytes(
        stack_size(f, v) as u32,
    ) + enc_heap(f, v, 8) + enc_stack(f, v, 8)
}

/// If every variant has a fixed size, each variant's size is bounded by the
/// maximum.
pub proof fn lemma_variants_max_bound(vs: Seq<Formula>, i: int)
    requires
        Formula::variants_max(vs) is Some,
        0 <= i < vs.len(),
    ensures
        vs[i].hsize() is Some,
        vs[i].hsize().unwrap() <= Formula::variants_max(vs).unwrap(),
    decreases vs.len(),
{
    if i > 0 {
        lemma_variants_max_bound(vs.drop_first(), i - 1);
        assert(vs.drop_first()[i - 1] == vs[i]);
    }
}

/// The encoded header and body byte counts equal the size model.
pub proof fn lemma_enc_len(f: Formula, v: Value, base: int)
    requires
        vmatch(f, v),
    ensures
        enc_stack(f, v, base).len() == stack_size(f, v),
        enc_heap(f, v, base).len() == heap_size(f, v),
    decreases v, f, 0int,
{
    vstd::bytes::lemma_auto_spec_u32_to_from_le_bytes();
    match f {
        Formula::Record(fs) => {
            if let Value::Record(xs) = v {
                lemma_enc_fields_len(fs@, xs@, base);
            }
        },
        Formula::Union(vs) => {
            if let Value::Variant(tag, val) = v {
                lemma_enc_len(vs@[tag as int], *val, base);
                if Formula::variants_max(vs@) is Some {
                    lemma_variants_max_bound(vs@, tag as int);
                    lemma_sized_stack(vs@[tag as int], *val);
                }
            }
        },
        Formula::Slice(e) => {
            if let Value::List(xs) = v {
                lemma_enc_elems_len(*e, xs@, base);
            }
        },
        Formula::Ref(e) => {
            lemma_enc_len(*e, v, base);
        },
        _ => {},
    }
}

/// Field-list version of [`lemma_enc_len`].
pub proof fn lemma_enc_fields_len(fs: Seq<Formula>, xs: Seq<Value>, base: int)
    requires
        vmatch_all(fs, xs),
        fs.len() == xs.len(),
    ensures
        enc_fields_stack(fs, xs, base).len() == fields_stack(fs, xs),
        enc_fields_heap(fs, xs, base).len() == fields_heap(fs, xs),
    decreases xs, fs, 1int,
{
    vstd::bytes::lemma_auto_spec_u32_to_from_le_bytes();
    if fs.len() == 0 {
        assert(enc_fields_stack(fs, xs, base).len() == 0);
        assert(fields_stack(fs, xs) == 0);
    } else if fs.len() == 1 {
        lemma_enc_len(fs[0], xs[0], base);
        assert(enc_fields_stack(fs, xs, base) == enc_stack(fs[0], xs[0], base));
        assert(fields_stack(fs, xs) == stack_size(fs[0], xs[0]));
        assert(enc_fields_heap(fs, xs, base) == enc_heap(fs[0], xs[0], base)
            + enc_fields_heap(fs.drop_first(), xs.drop_first(), base + heap_size(fs[0], xs[0])));
        assert(enc_fields_heap(
            fs.drop_first(),
            xs.drop_first(),
            base + heap_size(fs[0], xs[0]),
        ).len() == 0);
        assert(fields_heap(fs, xs) == heap_size(fs[0], xs[0]) + fields_heap(
            fs.drop_first(),
            xs.drop_first(),
        ));
        assert(fields_heap(fs.drop_first(), xs.drop_first()) == 0);
    } else {
        lemma_enc_len(fs[0], xs[0], base);
        if fs[0].hsize() is Some {
            lemma_sized_stack(fs[0], xs[0]);
        }
        assert(enc_field_slot(fs[0], xs[0], base).len() == field_slot(fs[0], xs[0]));
        lemma_enc_fields_len(fs.drop_first(), xs.drop_first(), base + heap_size(fs[0], xs[0]));
        assert(enc_fields_stack(fs, xs, base).len() == fields_stack(fs, xs));
        assert(enc_fields_heap(fs, xs, base).len() == fields_heap(fs, xs));
    }
}

/// Element-list version of [`lemma_enc_len`].
pub proof fn lemma_enc_elems_len(e: Formula, xs: Seq<Value>, base: int)
    requires
        vmatch_elems(e, xs),
    ensures
        enc_elems_stack(e, xs, base).len() == elems_stack(e, xs),
        enc_elems_heap(e, xs, base).len() == elems_heap(e, xs),
    decreases xs, e, 1int,
{
    vstd::bytes::lemma_auto_spec_u32_to_from_le_bytes();
    if xs.len() > 0 {
        lemma_enc_len(e, xs[0], base);
        if e.hsize() is Some {
            lemma_sized_stack(e, xs[0]);
        }
        assert(enc_elem_slot(e, xs[0], base).len() == elem_slot(e, xs[0]));
        lemma_enc_elems_len(e, xs.drop_first(), base + heap_size(e, xs[0]));
        assert(enc_elems_stack(e, xs, base).len() == elems_stack(e, xs));
        assert(enc_elems_heap(e, xs, base).len() == elems_heap(e, xs));
    }
}

/// Computes the exact `(stack, heap)` byte counts of `v` under `f`, or
/// `None` when the value does not match the formula or a part exceeds the
/// wire integer range.
fn try_sizes(f: &Formula, v: &Value) -> (r: Option<(u64, u64)>)
    requires
        f.wf(),
    ensures
        match r {
            Some(sh) => vmatch(*f, *v) && sh.0 == stack_size(*f, *v) && sh.1 == heap_size(*f, *v)
                && sh.0 <= MAX_WIRE_SIZE && sh.1 <= MAX_WIRE_SIZE,
            None => !(vmatch(*f, *v) && stack_size(*f, *v) <= MAX_WIRE_SIZE && heap_size(*f, *v)
                <= MAX_WIRE_SIZE),
        },
    decreases v, f, 0int, 0int,
{
    match (f, v) {
        (Formula::U8, Value::U8(_)) => Some((1, 0)),
        (Formula::U32, Value::U32(_)) => Some((4, 0)),
        (Formula::Bool, Value::Bool(_)) => Some((1, 0)),
        (Formula::Record(fs), Value::Record(xs)) => {
            if fs.len() != xs.len() {
                return None;
            }
            proof {
                lemma_all_wf(fs@);
                assert(fs@.skip(0) =~= fs@);
                assert(xs@.skip(0) =~= xs@);
            }
            try_fields_sizes(fs, xs, 0)
        },
        (Formula::Union(vs), Value::Variant(tag, val)) => {
            if (*tag as usize) >= vs.len() {
                return None;
            }
            proof {
                lemma_all_wf(vs@);
            }
            match try_sizes(&vs[*tag as usize], val) {
                None => {
                    proof {
                        if vmatch(*f, *v) {
                            if f.hsize() is Some {
                                lemma_variants_max_bound(vs@, *tag as int);
                                lemma_sized_stack(vs@[*tag as int], **val);
                            }
                        }
                    }
                    None
                },
                Some((ss, hh)) => {
                    match f.header_size() {
                        Some(k) => {
                            proof {
                                lemma_variants_max_bound(vs@, *tag as int);
                                lemma_sized_stack(vs@[*tag as int], **val);
                            }
                            Some((k as u64, hh))
                        },
                        None => {
                            let s = VARIANT_SIZE as u64 + ss;
                            if s > MAX_WIRE_SIZE {
                                None
                            } else {
                                Some((s, hh))
                            }
                        },
                    }
                },
            }
        },
        (Formula::Slice(e), Value::List(xs)) => {
            proof {
                assert(xs@.skip(0) =~= xs@);
            }
            try_elems_sizes(e, xs, 0)
        },
        (Formula::Ref(e), _) => {
            match try_sizes(e, v) {
                None => None,
                Some((ss, hh)) => {
                    let h = ss + hh;
                    if h > MAX_WIRE_SIZE {
                        None
                    } else {
                        Some((8, h))
                    }
                },
            }
        },
        _ => None,
    }
}

fn try_fields_sizes(fs: &Vec<Formula>, xs: &Vec<Value>, i: usize) -> (r: Option<(u64, u64)>)
    requires
        i <= fs@.len(),
        fs@.len() == xs@.len(),
        forall|j: int| 0 <= j < fs@.len() ==> fs@[j].wf(),
    ensures
        match r {
            Some(sh) => {
                &&& vmatch_all(fs@.skip(i as int), xs@.skip(i as int))
                &&& sh.0 == fields_stack(fs@.skip(i as int), xs@.skip(i as int))
                &&& sh.1 == fields_heap(fs@.skip(i as int), xs@.skip(i as int))
                &&& sh.0 <= MAX_WIRE_SIZE
                &&& sh.1 <= MAX_WIRE_SIZE
            },
            None => !(vmatch_all(fs@.skip(i as int), xs@.skip(i as int)) && fields_stack(
                fs@.skip(i as int),
                xs@.skip(i as int),
            ) <= MAX_WIRE_SIZE && fields_heap(fs@.skip(i as int), xs@.skip(i as int))
                <= MAX_WIRE_SIZE),
        },
    decreases xs, fs, 1int, fs@.len() - i,
{
    let ghost sfs = fs@.skip(i as int);
    let ghost sxs = xs@.skip(i as int);
    if i == fs.len() {
        proof {
            assert(sfs =~= Seq::<Formula>::empty());
            assert(sxs =~= Seq::<Value>::empty());
        }
        Some((0, 0))
    } else {
        proof {
            assert(sfs[0] == fs@[i as int]);
            assert(sxs[0] == xs@[i as int]);
            assert(sfs.drop_first() =~= fs@.skip(i as int + 1));
            assert(sxs.drop_first() =~= xs@.skip(i as int + 1));
        }
        if i + 1 == fs.len() {
            proof {
                assert(fs@.skip(i as int + 1) =~= Seq::<Formula>::empty());
                assert(xs@.skip(i as int + 1) =~= Seq::<Value>::empty());
            }
            let r = try_sizes(&fs[i], &xs[i]);
            proof {
                assert(vmatch_all(sfs.drop_first(), sxs.drop_first()));
                assert(fields_heap(sfs.drop_first(), sxs.drop_first()) == 0);
                assert(sfs.len() == 1);
                assert(fields_stack(sfs, sxs) == stack_size(sfs[0], sxs[0]));
                assert(fields_heap(sfs, sxs) == heap_size(sfs[0], sxs[0]) + fields_heap(
                    sfs.drop_first(),
                    sxs.drop_first(),
                ));
            }
            r
        } else {
            let cur = match try_sizes(&fs[i], &xs[i]) {
                None => {
                    proof {
                        if vmatch_all(sfs, sxs) {
                            if fs@[i as int].hsize() is Some {
                                lemma_sized_stack(fs@[i as int], xs@[i as int]);
                            }
                            assert(fields_stack(sfs, sxs) == field_slot(sfs[0], sxs[0])
                                + fields_stack(sfs.drop_first(), sxs.drop_first()));
                            assert(field_slot(sfs[0], sxs[0]) >= stack_size(sfs[0], sxs[0]));
                            assert(fields_heap(sfs, sxs) == heap_size(sfs[0], sxs[0]) + fields_heap(
                                sfs.drop_first(),
                                sxs.drop_first(),
                            ));
                        }
                    }
                    return None;
                },
                Some(c) => c,
            };
            let rest = match try_fields_sizes(fs, xs, i + 1) {
                None => {
                    proof {
                        assert(fields_stack(sfs, sxs) == field_slot(sfs[0], sxs[0]) + fields_stack(
                            sfs.drop_first(),
                            sxs.drop_first(),
                        ));
                        assert(fields_heap(sfs, sxs) == heap_size(sfs[0], sxs[0]) + fields_heap(
                            sfs.drop_first(),
                            sxs.drop_first(),
                        ));
                    }
                    return None;
                },
                Some(c) => c,
            };
            proof {
                assert(fields_stack(sfs, sxs) == field_slot(sfs[0], sxs[0]) + fields_stack(
                    sfs.drop_first(),
                    sxs.drop_first(),
                ));
                assert(fields_heap(sfs, sxs) == heap_size(sfs[0], sxs[0]) + fields_heap(
                    sfs.drop_first(),
                    sxs.drop_first(),
                ));
            }
            let slot: u64 = match fs[i].header_size() {
                Some(k) => {
                    proof {
                        lemma_sized_stack(fs@[i as int], xs@[i as int]);
                    }
                    k as u64
                },
                None => SIZE_STACK as u64 + cur.0,
            };
            let s = slot + rest.0;
            let h = cur.1 + rest.1;
            if s > MAX_WIRE_SIZE || h > MAX_WIRE_SIZE {
                None
            } else {
                Some((s, h))
            }
        }
    }
}

pub(crate) fn try_elems_sizes(e: &Formula, xs: &Vec<Value>, i: usize) -> (r: Option<(u64, u64)>)
    requires
        i <= xs@.len(),
        e.wf(),
    ensures
        match r {
            Some(sh) => {
                &&& vmatch_elems(*e, xs@.skip(i as int))
                &&& sh.0 == elems_stack(*e, xs@.skip(i as int))
                &&& sh.1 == elems_heap(*e, xs@.skip(i as int))
                &&& sh.0 <= MAX_WIRE_SIZE
                &&& sh.1 <= MAX_WIRE_SIZE
            },
            None => !(vmatch_elems(*e, xs@.skip(i as int)) && elems_stack(*e, xs@.skip(i as int))
                <= MAX_WIRE_SIZE && elems_heap(*e, xs@.skip(i as int)) <= MAX_WIRE_SIZE),
        },
    decreases xs, e, 1int, xs@.len() - i,
{
    let ghost sxs = xs@.skip(i as int);
    if i == xs.len() {
        proof {
            assert(sxs =~= Seq::<Value>::empty());
        }
        Some((0, 0))
    } else {
        proof {
            assert(sxs[0] == xs@[i as int]);
            assert(sxs.drop_first() =~= xs@.skip(i as int + 1));
        }
        let cur = match try_sizes(e, &xs[i]) {
            None => {
                proof {
                    if vmatch_elems(*e, sxs) {
                        if e.hsize() is Some {
                            lemma_sized_stack(*e, xs@[i as int]);
                        }
                        assert(elems_stack(*e, sxs) == elem_slot(*e, sxs[0]) + elems_stack(
                            *e,
                            sxs.drop_first(),
                        ));
                        assert(elem_slot(*e, sxs[0]) >= stack_size(*e, sxs[0]));
                        assert(elems_heap(*e, sxs) == heap_size(*e, sxs[0]) + elems_heap(
                            *e,
                            sxs.drop_first(),
                        ));
                    }
                }
                return None;
            },
            Some(c) => c,
        };
        let rest = match try_elems_sizes(e, xs, i + 1) {
            None => {
                proof {
                    assert(elems_stack(*e, sxs) == elem_slot(*e, sxs[0]) + elems_stack(
                        *e,
                        sxs.drop_first(),
                    ));
                    assert(elems_heap(*e, sxs) == heap_size(*e, sxs[0]) + elems_heap(
                        *e,
                        sxs.drop_first(),
                    ));
                }
                return None;
            },
            Some(c) => c,
        };
        proof {
            assert(elems_stack(*e, sxs) == elem_slot(*e, sxs[0]) + elems_stack(
                *e,
                sxs.drop_first(),
            ));
            assert(elems_heap(*e, sxs) == heap_size(*e, sxs[0]) + elems_heap(
                *e,
                sxs.drop_first(),
            ));
        }
        let slot: u64 = match e.header_size() {
            Some(k) => {
                proof {
                    lemma_sized_stack(*e, xs@[i as int]);
                }
                if k == 0 {
                    1
                } else {
                    k as u64
                }
            },
            None => SIZE_STACK as u64 + cur.0,
        };
        let s = slot + rest.0;
        let h = cur.1 + rest.1;
        if s > MAX_WIRE_SIZE || h > MAX_WIRE_SIZE {
            None
        } else {
            Some((s, h))
        }
    }
}

fn emit_stack(f: &Formula, v: &Value, base: usize, out: &mut Vec<u8>)
    requires
        f.wf(),
        vmatch(*f, *v),
        base + heap_size(*f, *v) + stack_size(*f, *v) <= MAX_WIRE_SIZE,
    ensures
        final(out)@ == old(out)@ + enc_stack(*f, *v, base as int),
    decreases v, f, 0int, 0int,
{
    match (f, v) {
        (Formula::U8, Value::U8(b)) => {
            out.push(*b);
            assert(out@ =~= old(out)@ + enc_stack(*f, *v, base as int));
        },
        (Formula::U32, Value::U32(x)) => {
            let mut bs = vstd::bytes::u32_to_le_bytes(*x);
            out.append(&mut bs);
            assert(out@ =~= old(out)@ + enc_stack(*f, *v, base as int));
        },
        (Formula::Bool, Value::Bool(b)) => {
            out.push(
                if *b {
                    1
                } else {
                    0
                },
            );
            assert(out@ =~= old(out)@ + enc_stack(*f, *v, base as int));
        },
        (Formula::Record(fs), Value::Record(xs)) => {
            proof {
                lemma_all_wf(fs@);
                assert(fs@.skip(0) =~= fs@);
                assert(xs@.skip(0) =~= xs@);
            }
            emit_fields_stack(fs, xs, 0, base, out);
        },
        (Formula::Union(vs), Value::Variant(tag, val)) => {
            let t = *tag as usize;
            proof {
                lemma_all_wf(vs@);
            }
            let sub = match try_sizes(&vs[t], val) {
                Some(p) => p,
                None => {
                    proof {
                        if f.hsize() is Some {
                            lemma_variants_max_bound(vs@, t as int);
                            lemma_sized_stack(vs@[t as int], **val);
                        }
                        assert(false);
                    }
                    (0, 0)
                },
            };
            match f.header_size() {
                Some(k) => {
                    proof {
                        lemma_variants_max_bound(vs@, t as int);
                        lemma_sized_stack(vs@[t as int], **val);
                    }
                    let pad = k as u64 - VARIANT_SIZE as u64 - sub.0;
                    let ghost mid = out@;
                    let mut j: u64 = 0;
                    while j < pad
                        invariant
                            j <= pad,
                            out@ == mid + zeros(j as nat),
                        decreases pad - j,
                    {
                        out.push(0);
                        proof {
                            assert(zeros((j + 1) as nat) =~= zeros(j as nat).push(0u8));
                        }
                        j = j + 1;
                    }
                    emit_stack(&vs[t], val, base, out);
                    let mut bs = vstd::bytes::u32_to_le_bytes(*tag);
                    out.append(&mut bs);
                    assert(out@ =~= old(out)@ + enc_stack(*f, *v, base as int));
                },
                None => {
                    emit_stack(&vs[t], val, base, out);
                    let mut bs = vstd::bytes::u32_to_le_bytes(*tag);
                    out.append(&mut bs);
                    assert(out@ =~= old(out)@ + enc_stack(*f, *v, base as int));
                },
            }
        },
        (Formula::Slice(e), Value::List(xs)) => {
            proof {
                assert(xs@.skip(0) =~= xs@);
            }
            emit_elems_stack(e, xs, 0, base, out);
        },
        (Formula::Ref(e), _) => {
            let sub = match try_sizes(e, v) {
                Some(p) => p,
                None => {
                    proof {
                        assert(false);
                    }
                    (0, 0)
                },
            };
            let a = base as u64 + sub.1 + sub.0;
            let mut bs = vstd::bytes::u32_to_le_bytes(a as u32);
            out.append(&mut bs);
            let mut bs2 = vstd::bytes::u32_to_le_bytes(sub.0 as u32);
            out.append(&mut bs2);
            assert(out@ =~= old(out)@ + enc_stack(*f, *v, base as int));
        },
        _ => {
            proof {
                assert(false);
            }
        },
    }
}

fn emit_fields_stack(fs: &Vec<Formula>, xs: &Vec<Value>, i: usize, base: usize, out: &mut Vec<u8>)
    requires
        i <= fs@.len(),
        fs@.len() == xs@.len(),
        forall|j: int| 0 <= j < fs@.len() ==> fs@[j].wf(),
        vmatch_all(fs@.skip(i as int), xs@.skip(i as int)),
        base + fields_heap(fs@.skip(i as int), xs@.skip(i as int)) + fields_stack(
            fs@.skip(i as int),
            xs@.skip(i as int),
        ) <= MAX_WIRE_SIZE,
    ensures
        final(out)@ == old(out)@ + enc_fields_stack(
            fs@.skip(i as int),
            xs@.skip(i as int),
            base as int,
        ),
    decreases xs, fs, 1int, fs@.len() - i,
{
    let ghost sfs = fs@.skip(i as int);
    let ghost sxs = xs@.skip(i as int);
    if i == fs.len() {
        proof {
            assert(sfs =~= Seq::<Formula>::empty());
            assert(out@ =~= out@ + enc_fields_stack(sfs, sxs, base as int));
        }
    } else {
        proof {
            assert(sfs[0] == fs@[i as int]);
            assert(sxs[0] == xs@[i as int]);
            assert(sfs.drop_first() =~= fs@.skip(i as int + 1));
            assert(sxs.drop_first() =~= xs@.skip(i as int + 1));
        }
        if i + 1 == fs.len() {
            proof {
                assert(sfs.len() == 1);
                assert(fields_stack(sfs, sxs) == stack_size(sfs[0], sxs[0]));
                assert(fields_heap(sfs, sxs) == heap_size(sfs[0], sxs[0]) + fields_heap(
                    sfs.drop_first(),
                    sxs.drop_first(),
                ));
            }
            emit_stack(&fs[i], &xs[i], base, out);
            assert(out@ =~= old(out)@ + enc_fields_stack(sfs, sxs, base as int));
        } else {
            proof {
                if sfs[0].hsize() is Some {
                    lemma_sized_stack(sfs[0], sxs[0]);
                }
                assert(fields_stack(sfs, sxs) == field_slot(sfs[0], sxs[0]) + fields_stack(
                    sfs.drop_first(),
                    sxs.drop_first(),
                ));
                assert(field_slot(sfs[0], sxs[0]) >= stack_size(sfs[0], sxs[0]));
                assert(fields_heap(sfs, sxs) == heap_size(sfs[0], sxs[0]) + fields_heap(
                    sfs.drop_first(),
                    sxs.drop_first(),
                ));
            }
            let cur = match try_sizes(&fs[i], &xs[i]) {
                Some(p) => p,
                None => {
                    proof {
                        assert(false);
                    }
                    (0, 0)
                },
            };
            let next_base = base + cur.1 as usize;
            emit_fields_stack(fs, xs, i + 1, next_base, out);
            let ghost after_rest = out@;
            proof {
                assert(next_base as int == base as int + heap_size(sfs[0], sxs[0]));
                assert(after_rest == old(out)@ + enc_fields_stack(
                    sfs.drop_first(),
                    sxs.drop_first(),
                    base as int + heap_size(sfs[0], sxs[0]),
                ));
            }
            match fs[i].header_size() {
                Some(_) => {
                    emit_stack(&fs[i], &xs[i], base, out);
                },
                None => {
                    emit_stack(&fs[i], &xs[i], base, out);
                    let mut bs = vstd::bytes::u32_to_le_bytes(cur.0 as u32);
                    out.append(&mut bs);
                },
            }
            assert(out@ == after_rest + enc_field_slot(sfs[0], sxs[0], base as int)) by {
                assert(out@ =~= after_rest + enc_field_slot(sfs[0], sxs[0], base as int));
            }
            assert(out@ =~= old(out)@ + enc_fields_stack(sfs, sxs, base as int));
        }
    }
}

fn emit_elems_stack(e: &Formula, xs: &Vec<Value>, i: usize, base: usize, out: &mut Vec<u8>)
    requires
        i <= xs@.len(),
        e.wf(),
        vmatch_elems(*e, xs@.skip(i as int)),
        base + elems_heap(*e, xs@.skip(i as int)) + elems_stack(*e, xs@.skip(i as int))
            <= MAX_WIRE_SIZE,
    ensures
        final(out)@ == old(out)@ + enc_elems_stack(*e, xs@.skip(i as int), base as int),
    decreases xs, e, 1int, xs@.len() - i,
{
    let ghost sxs = xs@.skip(i as int);
    if i == xs.len() {
        proof {
            assert(sxs =~= Seq::<Value>::empty());
            assert(out@ =~= out@ + enc_elems_stack(*e, sxs, base as int));
        }
    } else {
        proof {
            assert(sxs[0] == xs@[i as int]);
            assert(sxs.drop_first() =~= xs@.skip(i as int + 1));
            if e.hsize() is Some {
                lemma_sized_stack(*e, sxs[0]);
            }
            assert(elems_stack(*e, sxs) == elem_slot(*e, sxs[0]) + elems_stack(
                *e,
                sxs.drop_first(),
            ));
            assert(elem_slot(*e, sxs[0]) >= stack_size(*e, sxs[0]));
            assert(elems_heap(*e, sxs) == heap_size(*e, sxs[0]) + elems_heap(
                *e,
                sxs.drop_first(),
            ));
        }
        let cur = match try_sizes(e, &xs[i]) {
            Some(p) => p,
            None => {
                proof {
                    assert(false);
                }
                (0, 0)
            },
        };
        let next_base = base + cur.1 as usize;
        emit_elems_stack(e, xs, i + 1, next_base, out);
        let ghost after_rest = out@;
        proof {
            assert(next_base as int == base as int + heap_size(*e, sxs[0]));
            assert(after_rest == old(out)@ + enc_elems_stack(
                *e,
                sxs.drop_first(),
                base as int + heap_size(*e, sxs[0]),
            ));
        }
        match e.header_size() {
            Some(k) => {
                if k == 0 {
                    out.push(0);
                } else {
                    emit_stack(e, &xs[i], base, out);
                }
            },
            None => {
                emit_stack(e, &xs[i], base, out);
                let mut bs = vstd::bytes::u32_to_le_bytes(cur.0 as u32);
                out.append(&mut bs);
            },
        }
        assert(out@ == after_rest + enc_elem_slot(*e, sxs[0], base as int)) by {
            assert(out@ =~= after_rest + enc_elem_slot(*e, sxs[0], base as int));
        }
        assert(out@ =~= old(out)@ + enc_elems_stack(*e, sxs, base as int));
    }
}

fn emit_heap(f: &Formula, v: &Value, out: &mut Vec<u8>)
    requires
        f.wf(),
        vmatch(*f, *v),
        old(out)@.len() + heap_size(*f, *v) <= MAX_WIRE_SIZE,
    ensures
        final(out)@ == old(out)@ + enc_heap(*f, *v, old(out)@.len() as int),
    decreases v, f, 0int, 0int,
{
    let ghost base = out@.len() as int;
    match (f, v) {
        (Formula::Record(fs), Value::Record(xs)) => {
            proof {
                lemma_all_wf(fs@);
                assert(fs@.skip(0) =~= fs@);
                assert(xs@.skip(0) =~= xs@);
            }
            emit_fields_heap(fs, xs, 0, out);
        },
        (Formula::Union(vs), Value::Variant(tag, val)) => {
            let t = *tag as usize;
            proof {
                lemma_all_wf(vs@);
            }
            emit_heap(&vs[t], val, out);
            assert(out@ =~= old(out)@ + enc_heap(*f, *v, base));
        },
        (Formula::Slice(e), Value::List(xs)) => {
            proof {
                assert(xs@.skip(0) =~= xs@);
            }
            emit_elems_heap(e, xs, 0, out);
        },
        (Formula::Ref(e), _) => {
            let b = out.len();
            emit_heap(e, v, out);
            proof {
                lemma_enc_len(**e, *v, base);
            }
            emit_stack(e, v, b, out);
            assert(out@ =~= old(out)@ + enc_heap(*f, *v, base));
        },
        _ => {
            assert(out@ =~= out@ + enc_heap(*f, *v, base));
        },
    }
}

fn emit_fields_heap(fs: &Vec<Formula>, xs: &Vec<Value>, i: usize, out: &mut Vec<u8>)
    requires
        i <= fs@.len(),
        fs@.len() == xs@.len(),
        forall|j: int| 0 <= j < fs@.len() ==> fs@[j].wf(),
        vmatch_all(fs@.skip(i as int), xs@.skip(i as int)),
        old(out)@.len() + fields_heap(fs@.skip(i as int), xs@.skip(i as int)) <= MAX_WIRE_SIZE,
    ensures
        final(out)@ == old(out)@ + enc_fields_heap(
            fs@.skip(i as int),
            xs@.skip(i as int),
            old(out)@.len() as int,
        ),
    decreases xs, fs, 1int, fs@.len() - i,
{
    let ghost base = out@.len() as int;
    let ghost sfs = fs@.skip(i as int);
    let ghost sxs = xs@.skip(i as int);
    if i == fs.len() {
        proof {
            assert(sfs =~= Seq::<Formula>::empty());
            assert(out@ =~= out@ + enc_fields_heap(sfs, sxs, base));
        }
    } else {
        proof {
            assert(sfs[0] == fs@[i as int]);
            assert(sxs[0] == xs@[i as int]);
            assert(sfs.drop_first() =~= fs@.skip(i as int + 1));
            assert(sxs.drop_first() =~= xs@.skip(i as int + 1));
            assert(fields_heap(sfs, sxs) == heap_size(sfs[0], sxs[0]) + fields_heap(
                sfs.drop_first(),
                sxs.drop_first(),
            ));
        }
        emit_heap(&fs[i], &xs[i], out);
        proof {
            lemma_enc_len(fs@[i as int], xs@[i as int], base);
        }
        emit_fields_heap(fs, xs, i + 1, out);
        assert(out@ =~= old(out)@ + enc_fields_heap(sfs, sxs, base));
    }
}

fn emit_elems_heap(e: &Formula, xs: &Vec<Value>, i: usize, out: &mut Vec<u8>)
    requires
        i <= xs@.len(),
        e.wf(),
        vmatch_elems(*e, xs@.skip(i as int)),
        old(out)@.len() + elems_heap(*e, xs@.skip(i as int)) <= MAX_WIRE_SIZE,
    ensures
        final(out)@ == old(out)@ + enc_elems_heap(
            *e,
            xs@.skip(i as int),
            old(out)@.len() as int,
        ),
    decreases xs, e, 1int, xs@.len() - i,
{
    let ghost base = out@.len() as int;
    let ghost sxs = xs@.skip(i as int);
    if i == xs.len() {
        proof {
            assert(sxs =~= Seq::<Value>::empty());
            assert(out@ =~= out@ + enc_elems_heap(*e, sxs, base));
        }
    } else {
        proof {
            assert(sxs[0] == xs@[i as int]);
            assert(sxs.drop_first() =~= xs@.skip(i as int + 1));
            assert(elems_heap(*e, sxs) == heap_size(*e, sxs[0]) + elems_heap(
                *e,
                sxs.drop_first(),
            ));
        }
        emit_heap(e, &xs[i], out);
        proof {
            lemma_enc_len(*e, xs@[i as int], base);
        }
        emit_elems_heap(e, xs, i + 1, out);
        assert(out@ =~= old(out)@ + enc_elems_heap(*e, sxs, base));
    }
}

/// Serializes `v` under `f` into a fresh buffer holding exactly the encoded
/// message.  Callers establish encodability with [`serialized_size`] (or
/// [`crate::value::matches_formula`] and [`crate::formula::Formula::check`])
/// before calling.
pub fn serialize_to_vec(f: &Formula, v: &Value) -> (r: Vec<u8>)
    requires
        encodable(*f, *v),
    ensures
        r@ == enc_message(*f, *v),
        r@.len() == 8 + heap_size(*f, *v) + stack_size(*f, *v),
{
    let (ss, hh) = match try_sizes(f, v) {
        Some(p) => p,
        None => {
            proof {
                assert(false);
            }
            (0, 0)
        },
    };
    let total = 8 + ss + hh;
    let mut out = vstd::bytes::u32_to_le_bytes(total as u32);
    let mut szb = vstd::bytes::u32_to_le_bytes(ss as u32);
    out.append(&mut szb);
    assert(out@.len() == 8);
    emit_heap(f, v, &mut out);
    proof {
        lemma_enc_len(*f, *v, 8);
    }
    emit_stack(f, v, 8, &mut out);
    assert(out@ =~= enc_message(*f, *v));
    out
}

/// Serializes `v` under `f` into the front of a fixed-capacity buffer.
///
/// If the buffer is too small, nothing is written and the exact number of
/// bytes the whole message needs is reported, so a caller can retry once
/// with a correctly sized destination.  On success the message occupies the
/// buffer's first `total` bytes and the rest of the buffer is unchanged.
pub fn serialize_or_size(f: &Formula, v: &Value, buf: &mut Vec<u8>) -> (r: Result<usize, usize>)
    requires
        encodable(*f, *v),
    ensures
        ({
            let total = 8 + heap_size(*f, *v) + stack_size(*f, *v);
            if old(buf)@.len() < total {
                r == Result::<usize, usize>::Err(total as usize) && final(buf)@ == old(buf)@
            } else {
                r == Result::<usize, usize>::Ok(total as usize) && final(buf)@ == enc_message(
                    *f,
                    *v,
                ) + old(buf)@.skip(total as int) && final(buf)@.len() == old(buf)@.len()
            }
        }),
{
    let (ss, hh) = match try_sizes(f, v) {
        Some(p) => p,
        None => {
            proof {
                assert(false);
            }
            (0, 0)
        },
    };
    let total64 = 8 + ss + hh;
    if (buf.len() as u64) < total64 {
        return Err(total64 as usize);
    }
    let total = total64 as usize;
    let mut out = serialize_to_vec(f, v);
    let mut i: usize = total;
    while i < buf.len()
        invariant
            total <= i <= buf@.len(),
            buf@ == old(buf)@,
            out@ == enc_message(*f, *v) + old(buf)@.subrange(total as int, i as int),
        decreases buf@.len() - i,
    {
        let b = buf[i];
        out.push(b);
        proof {
            assert(old(buf)@.subrange(total as int, i as int + 1) =~= old(buf)@.subrange(
                total as int,
                i as int,
            ).push(old(buf)@[i as int]));
        }
        i = i + 1;
    }
    proof {
        assert(old(buf)@.subrange(total as int, old(buf)@.len() as int) =~= old(buf)@.skip(
            total as int,
        ));
    }
    *buf = out;
    Ok(total)
}

/// Exact byte counts the value will occupy when serialized: header
/// ("stack") and body ("heap") bytes, not counting the message's leading
/// 8-byte `(address, size)` pair.
///
/// Returns `None` exactly when the value cannot be encoded under the
/// formula: it does not match, or the message would not fit the wire
/// integer range.
pub fn serialized_size(f: &Formula, v: &Value) -> (r: Option<Sizes>)
    requires
        f.wf(),
    ensures
        r is Some <==> encodable(*f, *v),
        r matches Some(s) ==> s.stack == stack_size(*f, *v) && s.heap == heap_size(*f, *v),
{
    match try_sizes(f, v) {
        None => None,
        Some((ss, hh)) => {
            if 8 + ss + hh <= MAX_WIRE_SIZE {
                Some(
                    Sizes {
                        stack: ss as usize,
                        heap: hh as usize,
                    },
                )
            } else {
                None
            }
        },
    }
}

} // verus!
