//! Dynamic values and their size model.
//!
//! A [`Value`] is a runtime value described by a [`Formula`].  The spec
//! functions here define how many bytes a value occupies on the wire: its
//! "stack" (header) bytes, counted as they are consumed from the tail of a
//! window, and its "heap" (body) bytes, addressed from the front of the
//! buffer.

use vstd::prelude::*;

use crate::formula::Formula;
use crate::formula::MAX_WIRE_SIZE;
use crate::formula::SIZE_STACK;
use crate::formula::VARIANT_SIZE;

verus! {

broadcast use vstd::seq::group_seq_axioms, vstd::std_specs::vec::group_vec_axioms;

/// A dynamic value, laid out on the wire according to a matching
/// [`Formula`].
#[derive(Debug, PartialEq, Eq)]
pub enum Value {
    /// Matches [`Formula::U8`].
    U8(u8),
    /// Matches [`Formula::U32`].
    U32(u32),
    /// Matches [`Formula::Bool`].
    Bool(bool),
    /// Matches [`Formula::Record`] with one value per field.
    Record(Vec<Value>),
    /// Matches [`Formula::Union`]: the chosen variant's index and value.
    Variant(u32, Box<Value>),
    /// Matches [`Formula::Slice`]: the sequence elements in order.
    List(Vec<Value>),
}

/// The mathematical mirror of a [`Value`], used in specifications: vectors
/// become sequences.  A `Variant` carries its single chosen value as a
/// singleton sequence, which gives the recursion its indirection.
pub ghost enum ValueModel {
    /// Mirror of [`Value::U8`].
    U8(u8),
    /// Mirror of [`Value::U32`].
    U32(u32),
    /// Mirror of [`Value::Bool`].
    Bool(bool),
    /// Mirror of [`Value::Record`].
    Record(Seq<ValueModel>),
    /// Mirror of [`Value::Variant`]; the sequence always has length one.
    Variant(u32, Seq<ValueModel>),
    /// Mirror of [`Value::List`].
    List(Seq<ValueModel>),
}

/// The mirrors of a sequence of values.
pub open spec fn vmodels(xs: Seq<Value>) -> Seq<ValueModel>
    decreases xs,
{
    if xs.len() == 0 {
        Seq::empty()
    } else {
        seq![xs[0]@] + vmodels(xs.drop_first())
    }
}

impl View for Value {
    type V = ValueModel;

    open spec fn view(&self) -> ValueModel
        decreases self,
    {
        match self {
            Value::U8(b) => ValueModel::U8(*b),
            Value::U32(x) => ValueModel::U32(*x),
            Value::Bool(b) => ValueModel::Bool(*b),
            Value::Record(xs) => ValueModel::Record(vmodels(xs@)),
            Value::Variant(tag, val) => ValueModel::Variant(*tag, seq![(**val)@]),
            Value::List(xs) => ValueModel::List(vmodels(xs@)),
        }
    }
}

/// `vmodels` maps a sequence of values to their mirrors, pointwise.
pub proof fn lemma_vmodels(xs: Seq<Value>)
    ensures
        vmodels(xs).len() == xs.len(),
        forall|i: int| 0 <= i < xs.len() ==> vmodels(xs)[i] == xs[i]@,
    decreases xs,
{
    if xs.len() > 0 {
        lemma_vmodels(xs.drop_first());
        assert(vmodels(xs) == seq![xs[0]@] + vmodels(xs.drop_first()));
        assert(seq![xs[0]@].len() == 1);
        assert(vmodels(xs).len() == xs.len());
        assert forall|i: int| 0 <= i < xs.len() implies vmodels(xs)[i] == xs[i]@ by {
            if i > 0 {
                assert(xs.drop_first()[i - 1] == xs[i]);
                assert(vmodels(xs)[i] == vmodels(xs.drop_first())[i - 1]);
            }
        }
    }
}

/// Whether `v` is a value of formula `f`.
pub open spec fn vmatch(f: Formula, v: Value) -> bool
    decreases v, f,
{
    match f {
        Formula::U8 => v is U8,
        Formula::U32 => v is U32,
        Formula::Bool => v is Bool,
        Formula::Record(fs) => match v {
            Value::Record(xs) => xs@.len() == fs@.len() && vmatch_all(fs@, xs@),
            _ => false,
        },
        Formula::Union(vs) => match v {
            Value::Variant(tag, val) => (tag as int) < vs@.len() && vmatch(vs@[tag as int], *val),
            _ => false,
        },
        Formula::Slice(e) => match v {
            Value::List(xs) => vmatch_elems(*e, xs@),
            _ => false,
        },
        Formula::Ref(e) => vmatch(*e, v),
    }
}

/// Whether the two sequences match pointwise.
pub open spec fn vmatch_all(fs: Seq<Formula>, xs: Seq<Value>) -> bool
    decreases xs, fs,
{
    if fs.len() == 0 || xs.len() == 0 {
        true
    } else {
        vmatch(fs[0], xs[0]) && vmatch_all(fs.drop_first(), xs.drop_first())
    }
}

/// Whether every element matches the element formula.
pub open spec fn vmatch_elems(e: Formula, xs: Seq<Value>) -> bool
    decreases xs, e,
{
    if xs.len() == 0 {
        true
    } else {
        vmatch(e, xs[0]) && vmatch_elems(e, xs.drop_first())
    }
}

/// Header ("stack") bytes a value occupies in the window granted to it.
///
/// A fixed-size union occupies its full padded header regardless of which
/// variant is present.
pub open spec fn stack_size(f: Formula, v: Value) -> nat
    decreases v, f, 0int,
{
    match f {
        Formula::U8 => 1nat,
        Formula::U32 => 4nat,
        Formula::Bool => 1nat,
        Formula::Record(fs) => match v {
            Value::Record(xs) => fields_stack(fs@, xs@),
            _ => 0nat,
        },
        Formula::Union(vs) => match v {
            Value::Variant(tag, val) => match Formula::variants_max(vs@) {
                Some(m) => (VARIANT_SIZE + m) as nat,
                None => if (tag as int) < vs@.len() {
                    (VARIANT_SIZE + stack_size(vs@[tag as int], *val)) as nat
                } else {
                    VARIANT_SIZE as nat
                },
            },
            _ => 0nat,
        },
        Formula::Slice(e) => match v {
            Value::List(xs) => elems_stack(*e, xs@),
            _ => 0nat,
        },
        Formula::Ref(_) => 8nat,
    }
}

/// Stack bytes a non-final record field occupies: its fixed header size, or
/// its payload plus a length prefix when the field is unsized.
pub open spec fn field_slot(f: Formula, v: Value) -> nat
    decreases v, f, 1int,
{
    match f.hsize() {
        Some(k) => k,
        None => (SIZE_STACK + stack_size(f, v)) as nat,
    }
}

/// Stack bytes one sequence element occupies.  An element whose fixed size
/// is zero still takes one byte, so that the element count can be recovered
/// from the sequence's byte length.
pub open spec fn elem_slot(f: Formula, v: Value) -> nat
    decreases v, f, 1int,
{
    match f.hsize() {
        Some(k) => if k == 0 {
            1nat
        } else {
            k
        },
        None => (SIZE_STACK + stack_size(f, v)) as nat,
    }
}

/// Stack bytes of a field list: every field but the last occupies its slot;
/// the final field is written bare, without a length prefix.
pub open spec fn fields_stack(fs: Seq<Formula>, xs: Seq<Value>) -> nat
    decreases xs, fs, 2int,
{
    if fs.len() == 0 || xs.len() == 0 {
        0nat
    } else if fs.len() == 1 {
        stack_size(fs[0], xs[0])
    } else {
        (field_slot(fs[0], xs[0]) + fields_stack(fs.drop_first(), xs.drop_first())) as nat
    }
}

/// Stack bytes of a sequence of elements.
pub open spec fn elems_stack(e: Formula, xs: Seq<Value>) -> nat
    decreases xs, e, 2int,
{
    if xs.len() == 0 {
        0nat
    } else {
        (elem_slot(e, xs[0]) + elems_stack(e, xs.drop_first())) as nat
    }
}

/// Body ("heap") bytes a value needs, in front of its own header.
pub open spec fn heap_size(f: Formula, v: Value) -> nat
    decreases v, f, 0int,
{
    match f {
        Formula::U8 => 0nat,
        Formula::U32 => 0nat,
        Formula::Bool => 0nat,
        Formula::Record(fs) => match v {
            Value::Record(xs) => fields_heap(fs@, xs@),
            _ => 0nat,
        },
        Formula::Union(vs) => match v {
            Value::Variant(tag, val) => if (tag as int) < vs@.len() {
                heap_size(vs@[tag as int], *val)
            } else {
                0nat
            },
            _ => 0nat,
        },
        Formula::Slice(e) => match v {
            Value::List(xs) => elems_heap(*e, xs@),
            _ => 0nat,
        },
        Formula::Ref(e) => (heap_size(*e, v) + stack_size(*e, v)) as nat,
    }
}

/// Heap bytes of a field list, bodies placed in declaration order.
pub open spec fn fields_heap(fs: Seq<Formula>, xs: Seq<Value>) -> nat
    decreases xs, fs, 1int,
{
    if fs.len() == 0 || xs.len() == 0 {
        0nat
    } else {
        (heap_size(fs[0], xs[0]) + fields_heap(fs.drop_first(), xs.drop_first())) as nat
    }
}

/// Heap bytes of a sequence of elements, bodies placed in order.
pub open spec fn elems_heap(e: Formula, xs: Seq<Value>) -> nat
    decreases xs, e, 1int,
{
    if xs.len() == 0 {
        0nat
    } else {
        (heap_size(e, xs[0]) + elems_heap(e, xs.drop_first())) as nat
    }
}

/// Whether `v` can be encoded under `f` at all: the formula is well formed,
/// the value matches it, and the whole message fits the wire integer range.
pub open spec fn encodable(f: Formula, v: Value) -> bool {
    &&& f.wf()
    &&& vmatch(f, v)
    &&& 8 + stack_size(f, v) + heap_size(f, v) <= MAX_WIRE_SIZE
}

/// A value of a fixed-size formula occupies exactly that fixed size.
pub proof fn lemma_sized_stack(f: Formula, v: Value)
    requires
        vmatch(f, v),
        f.hsize() is Some,
    ensures
        stack_size(f, v) == f.hsize().unwrap(),
    decreases v, f,
{
    match f {
        Formula::Record(fs) => {
            if let Value::Record(xs) = v {
                lemma_sized_fields_stack(fs@, xs@);
            }
        },
        _ => {},
    }
}

/// A field list whose total header size is fixed occupies exactly that sum.
pub proof fn lemma_sized_fields_stack(fs: Seq<Formula>, xs: Seq<Value>)
    requires
        vmatch_all(fs, xs),
        fs.len() == xs.len(),
        Formula::fields_hsize(fs) is Some,
    ensures
        fields_stack(fs, xs) == Formula::fields_hsize(fs).unwrap(),
    decreases xs,
{
    if fs.len() == 0 {
    } else if fs.len() == 1 {
        assert(fs.drop_first().len() == 0);
        assert(Formula::fields_hsize(fs.drop_first()) == Some(0nat));
        assert(fs[0].hsize() is Some);
        lemma_sized_stack(fs[0], xs[0]);
        assert(fields_stack(fs, xs) == stack_size(fs[0], xs[0]));
        assert(Formula::fields_hsize(fs).unwrap() == fs[0].hsize().unwrap());
    } else {
        assert(fs[0].hsize() is Some);
        assert(Formula::fields_hsize(fs.drop_first()) is Some);
        assert(field_slot(fs[0], xs[0]) == fs[0].hsize().unwrap());
        lemma_sized_fields_stack(fs.drop_first(), xs.drop_first());
    }
}

/// Every element of a sized element formula occupies the same slot size,
/// whatever the element values are.
pub proof fn lemma_sized_elems_stack(e: Formula, xs: Seq<Value>)
    requires
        e.hsize() matches Some(k),
    ensures
        elems_stack(e, xs) == xs.len() * (if e.hsize().unwrap() == 0 {
            1nat
        } else {
            e.hsize().unwrap()
        }),
    decreases xs,
{
    let slot = (if e.hsize().unwrap() == 0 {
        1nat
    } else {
        e.hsize().unwrap()
    });
    if xs.len() > 0 {
        lemma_sized_elems_stack(e, xs.drop_first());
        assert(elems_stack(e, xs) == slot + (xs.len() - 1) * slot) by {
            assert(elem_slot(e, xs[0]) == slot);
        }
        let n = xs.len();
        assert(slot + (n - 1) * slot == n * slot) by (nonlinear_arith)
            requires
                n >= 1,
        ;
    }
}

/// Whether `v` is a value of formula `f`; see [`vmatch`].
pub fn matches_formula(f: &Formula, v: &Value) -> (r: bool)
    ensures
        r == vmatch(*f, *v),
    decreases v, f, 0int,
{
    match (f, v) {
        (Formula::U8, Value::U8(_)) => true,
        (Formula::U32, Value::U32(_)) => true,
        (Formula::Bool, Value::Bool(_)) => true,
        (Formula::Record(fs), Value::Record(xs)) => {
            proof {
                assert(fs@.skip(0) =~= fs@);
                assert(xs@.skip(0) =~= xs@);
            }
            fs.len() == xs.len() && matches_all(fs, xs, 0)
        },
        (Formula::Union(vs), Value::Variant(tag, val)) => {
            if (*tag as usize) < vs.len() {
                matches_formula(&vs[*tag as usize], val)
            } else {
                false
            }
        },
        (Formula::Slice(e), Value::List(xs)) => {
            proof {
                assert(xs@.skip(0) =~= xs@);
            }
            matches_elems(e, xs, 0)
        },
        (Formula::Ref(e), _) => matches_formula(e, v),
        _ => false,
    }
}

fn matches_all(fs: &Vec<Formula>, xs: &Vec<Value>, i: usize) -> (r: bool)
    requires
        i <= fs@.len(),
        fs@.len() == xs@.len(),
    ensures
        r == vmatch_all(fs@.skip(i as int), xs@.skip(i as int)),
    decreases xs, fs, 1int, fs@.len() - i,
{
    if i == fs.len() {
        assert(fs@.skip(i as int) =~= Seq::<Formula>::empty());
        true
    } else {
        proof {
            assert(fs@.skip(i as int)[0] == fs@[i as int]);
            assert(xs@.skip(i as int)[0] == xs@[i as int]);
            assert(fs@.skip(i as int).drop_first() =~= fs@.skip(i as int + 1));
            assert(xs@.skip(i as int).drop_first() =~= xs@.skip(i as int + 1));
        }
        matches_formula(&fs[i], &xs[i]) && matches_all(fs, xs, i + 1)
    }
}

/// The stack bytes every element of a fixed-size element formula
/// occupies: one byte for zero-size elements, else the fixed size.
pub open spec fn sized_slot(f: Formula) -> nat {
    match f.hsize() {
        Some(k) => if k == 0 {
            1nat
        } else {
            k
        },
        None => 0nat,
    }
}

/// A heapless formula never needs body bytes, whatever the value is.
pub proof fn lemma_heapless_zero(f: Formula, v: Value)
    requires
        f.heapless(),
    ensures
        heap_size(f, v) == 0,
    decreases v, f, 0int,
{
    match f {
        Formula::Record(fs) => {
            if let Value::Record(xs) = v {
                crate::formula::lemma_all_heapless(fs@);
                lemma_heapless_zero_fields(fs@, xs@);
            }
        },
        Formula::Union(vs) => {
            if let Value::Variant(tag, val) = v {
                if (tag as int) < vs@.len() {
                    crate::formula::lemma_all_heapless(vs@);
                    lemma_heapless_zero(vs@[tag as int], *val);
                }
            }
        },
        Formula::Slice(e) => {
            if let Value::List(xs) = v {
                lemma_heapless_zero_elems(*e, xs@);
            }
        },
        _ => {},
    }
}

/// Field-list version of [`lemma_heapless_zero`].
pub proof fn lemma_heapless_zero_fields(fs: Seq<Formula>, xs: Seq<Value>)
    requires
        forall|i: int| 0 <= i < fs.len() ==> fs[i].heapless(),
    ensures
        fields_heap(fs, xs) == 0,
    decreases xs, fs, 1int,
{
    if fs.len() > 0 && xs.len() > 0 {
        lemma_heapless_zero(fs[0], xs[0]);
        assert forall|i: int| 0 <= i < fs.drop_first().len() implies fs.drop_first()[i].heapless()
            by {
            assert(fs.drop_first()[i] == fs[i + 1]);
        }
        lemma_heapless_zero_fields(fs.drop_first(), xs.drop_first());
    }
}

/// Element-list version of [`lemma_heapless_zero`].
pub proof fn lemma_heapless_zero_elems(e: Formula, xs: Seq<Value>)
    requires
        e.heapless(),
    ensures
        elems_heap(e, xs) == 0,
    decreases xs, e, 1int,
{
    if xs.len() > 0 {
        lemma_heapless_zero(e, xs[0]);
        lemma_heapless_zero_elems(e, xs.drop_first());
    }
}

/// The mirror of a concatenation is the concatenation of the mirrors.
pub proof fn lemma_vmodels_concat(a: Seq<Value>, b: Seq<Value>)
    ensures
        vmodels(a + b) == vmodels(a) + vmodels(b),
{
    lemma_vmodels(a);
    lemma_vmodels(b);
    lemma_vmodels(a + b);
    assert(vmodels(a + b) =~= vmodels(a) + vmodels(b));
}

fn matches_elems(e: &Formula, xs: &Vec<Value>, i: usize) -> (r: bool)
    requires
        i <= xs@.len(),
    ensures
        r == vmatch_elems(*e, xs@.skip(i as int)),
    decreases xs, e, 1int, xs@.len() - i,
{
    if i == xs.len() {
        assert(xs@.skip(i as int) =~= Seq::<Value>::empty());
        true
    } else {
        proof {
            assert(xs@.skip(i as int)[0] == xs@[i as int]);
            assert(xs@.skip(i as int).drop_first() =~= xs@.skip(i as int + 1));
        }
        matches_formula(e, &xs[i]) && matches_elems(e, xs, i + 1)
    }
}

} // verus!
