//! The laws the codec obeys, each proved from the specifications the
//! executable functions are verified against.

use vstd::prelude::*;

use crate::deserialize::Error;
use crate::deserialize::dec_elems;
use crate::deserialize::dec_fields;
use crate::deserialize::dec_payload;
use crate::deserialize::dec_value;
use crate::deserialize::dec_value_sub;
use crate::deserialize::iter_step;
use crate::deserialize::spec_deserialize;
use crate::formula::Formula;
use crate::formula::MAX_WIRE_SIZE;
use crate::formula::lemma_all_wf;
use crate::serialize::enc_elem_slot;
use crate::serialize::enc_elems_heap;
use crate::serialize::enc_elems_stack;
use crate::serialize::enc_field_slot;
use crate::serialize::enc_fields_heap;
use crate::serialize::enc_fields_stack;
use crate::serialize::enc_heap;
use crate::serialize::enc_message;
use crate::serialize::enc_stack;
use crate::serialize::lemma_enc_elems_len;
use crate::serialize::lemma_enc_fields_len;
use crate::serialize::lemma_enc_len;
use crate::serialize::lemma_variants_max_bound;
use crate::serialize::zeros;
use crate::value::Value;
use crate::value::ValueModel;
use crate::value::elem_slot;
use crate::value::elems_heap;
use crate::value::elems_stack;
use crate::value::encodable;
use crate::value::field_slot;
use crate::value::fields_heap;
use crate::value::fields_stack;
use crate::value::heap_size;
use crate::value::lemma_sized_stack;
use crate::value::stack_size;
use crate::value::vmatch;
use crate::value::vmatch_all;
use crate::value::vmatch_elems;
use crate::value::vmodels;
use vstd::bytes::spec_u32_from_le_bytes;
use vstd::bytes::spec_u32_to_le_bytes;

verus! {

broadcast use vstd::seq::group_seq_axioms, vstd::std_specs::vec::group_vec_axioms;

/// Splits knowledge of a two-part region into its parts.
proof fn lemma_concat_split(buf: Seq<u8>, lo: int, hi: int, a: Seq<u8>, b: Seq<u8>)
    requires
        0 <= lo <= hi <= buf.len(),
        buf.subrange(lo, hi) == a + b,
        hi - lo == a.len() + b.len(),
    ensures
        buf.subrange(lo, lo + a.len()) == a,
        buf.subrange(lo + a.len(), hi) == b,
{
    assert(buf.subrange(lo, lo + a.len()) =~= a) by {
        assert forall|i: int| 0 <= i < a.len() implies buf.subrange(lo, lo + a.len())[i] == a[i]
            by {
            assert(buf.subrange(lo, hi)[i] == (a + b)[i]);
        }
    }
    assert(buf.subrange(lo + a.len(), hi) =~= b) by {
        assert forall|i: int| 0 <= i < b.len() implies buf.subrange(lo + a.len(), hi)[i] == b[i]
            by {
            assert(buf.subrange(lo, hi)[a.len() + i] == (a + b)[a.len() + i]);
            assert(buf.subrange(lo, hi)[a.len() + i] == buf[lo + a.len() + i]);
            assert(buf.subrange(lo + a.len(), hi)[i] == buf[lo + a.len() + i]);
            assert((a + b)[a.len() + i] == b[i]);
        }
    }
}

/// How the cursor primitives act on a prefix window.
proof fn lemma_take_ops(buf: Seq<u8>, e: int, n: int)
    requires
        0 <= n <= e <= buf.len(),
    ensures
        buf.take(e).skip(e - n) == buf.subrange(e - n, e),
        buf.take(e).take(e - n) == buf.take(e - n),
        buf.take(e).len() == e,
{
    assert(buf.take(e).skip(e - n) =~= buf.subrange(e - n, e));
    assert(buf.take(e).take(e - n) =~= buf.take(e - n));
}

/// A formula with fixed header size zero is heapless.
proof fn lemma_zero_sized_heapless(f: Formula)
    requires
        f.wf(),
        f.hsize() == Some(0nat),
    ensures
        f.heapless(),
    decreases f,
{
    match f {
        Formula::Record(fs) => {
            lemma_zero_sized_fields(fs@);
        },
        _ => {},
    }
}

proof fn lemma_zero_sized_fields(fs: Seq<Formula>)
    requires
        crate::formula::Formula::all_wf(fs),
        crate::formula::Formula::fields_hsize(fs) == Some(0nat),
    ensures
        crate::formula::Formula::all_heapless(fs),
    decreases fs,
{
    if fs.len() > 0 {
        assert(fs[0].hsize() == Some(0nat));
        lemma_zero_sized_heapless(fs[0]);
        lemma_zero_sized_fields(fs.drop_first());
    }
}

/// Decoding reads back what encoding wrote: the payload decode of a value
/// whose header bytes sit at the tail of the window and whose bodies sit
/// at `base` yields the value's mirror.
#[verifier::rlimit(60)]
#[verifier::spinoff_prover]
proof fn lemma_dec_payload_enc(f: Formula, v: Value, buf: Seq<u8>, e: int, base: int)
    requires
        f.wf(),
        vmatch(f, v),
        0 <= base,
        base + heap_size(f, v) <= e - stack_size(f, v),
        e <= buf.len(),
        e <= MAX_WIRE_SIZE,
        buf.subrange(base, base + heap_size(f, v)) == enc_heap(f, v, base),
        buf.subrange(e - stack_size(f, v), e) == enc_stack(f, v, base),
    ensures
        dec_payload(f, buf.take(e), stack_size(f, v)) == Ok::<ValueModel, Error>(v@),
    decreases v, f, 0int,
{
    vstd::bytes::lemma_auto_spec_u32_to_from_le_bytes();
    lemma_enc_len(f, v, base);
    let win = buf.take(e);
    let s = stack_size(f, v) as int;
    match f {
        Formula::U8 => {
            lemma_take_ops(buf, e, 1);
            assert(win.skip(win.len() - 1) == enc_stack(f, v, base));
            if let Value::U8(b) = v {
                assert(enc_stack(f, v, base)[0] == b);
            }
        },
        Formula::U32 => {
            lemma_take_ops(buf, e, 4);
            assert(win.skip(win.len() - 4) == enc_stack(f, v, base));
        },
        Formula::Bool => {
            lemma_take_ops(buf, e, 1);
            assert(win.skip(win.len() - 1) == enc_stack(f, v, base));
            if let Value::Bool(b) = v {
                assert(enc_stack(f, v, base)[0] == (if b {
                    1u8
                } else {
                    0u8
                }));
            }
        },
        Formula::Record(fs) => {
            if let Value::Record(xs) = v {
                lemma_all_wf(fs@);
                lemma_dec_fields_enc(fs@, xs@, buf, e, base);
                crate::value::lemma_vmodels(xs@);
            }
        },
        Formula::Union(vs) => {
            if let Value::Variant(tag, val) = v {
                lemma_all_wf(vs@);
                let vf = vs@[tag as int];
                let body = enc_stack(vf, *val, base);
                lemma_enc_len(vf, *val, base);
                match crate::formula::Formula::variants_max(vs@) {
                    Some(m) => {
                        lemma_variants_max_bound(vs@, tag as int);
                        lemma_sized_stack(vf, *val);
                        let pad = zeros((m - stack_size(vf, *val)) as nat);
                        // the tag is the last four bytes of the window
                        lemma_concat_split(
                            buf,
                            e - s,
                            e,
                            pad + body,
                            spec_u32_to_le_bytes(tag),
                        );
                        lemma_take_ops(buf, e, 4);
                        assert(win.skip(win.len() - 4) == buf.subrange(e - 4, e));
                        // the variant body lies just below the tag
                        lemma_concat_split(buf, e - s, e - 4, pad, body);
                        let kv = stack_size(vf, *val) as int;
                        lemma_take_ops(buf, e - 4, kv);
                        // decode the variant as a fixed-size, non-final read
                        lemma_dec_payload_enc(vf, *val, buf, e - 4, base);
                        assert(dec_value(vf, buf.take(e - 4), (s - 4) as nat, false)
                            == dec_value_sub(vf, buf.take(e - 4), (s - 4) as nat, kv as nat));
                    },
                    None => {
                        lemma_concat_split(buf, e - s, e, body, spec_u32_to_le_bytes(tag));
                        lemma_take_ops(buf, e, 4);
                        assert(win.skip(win.len() - 4) == buf.subrange(e - 4, e));
                        lemma_take_ops(buf, e - 4, body.len() as int);
                        lemma_dec_payload_enc(vf, *val, buf, e - 4, base);
                    },
                }
            }
        },
        Formula::Slice(ef) => {
            if let Value::List(xs) = v {
                lemma_dec_elems_enc(*ef, xs@, buf, e, base);
                crate::value::lemma_vmodels(xs@);
            }
        },
        Formula::Ref(ef) => {
            let he = heap_size(*ef, v) as int;
            let se = stack_size(*ef, v) as int;
            let a = base + he + se;
            lemma_enc_len(*ef, v, base);
            lemma_take_ops(buf, e, 8);
            assert(win.skip(win.len() - 8) == buf.subrange(e - 8, e));
            lemma_concat_split(
                buf,
                e - 8,
                e,
                spec_u32_to_le_bytes(a as u32),
                spec_u32_to_le_bytes(se as u32),
            );
            let pair = buf.subrange(e - 8, e);
            assert(pair.take(4) =~= buf.subrange(e - 8, e - 4));
            assert(pair.skip(4) =~= buf.subrange(e - 4, e));
            // the stored address and size round-trip through the codec
            assert(spec_u32_from_le_bytes(pair.take(4)) == a as u32);
            assert(spec_u32_from_le_bytes(pair.skip(4)) == se as u32);
            // the referenced region splits into bodies and header
            lemma_concat_split(
                buf,
                base,
                base + he + se,
                enc_heap(*ef, v, base),
                enc_stack(*ef, v, base),
            );
            lemma_take_ops(buf, e, 8);
            assert(buf.take(e).take(e - 8) == buf.take(e - 8));
            assert(buf.take(e - 8).take(a) =~= buf.take(a));
            lemma_dec_payload_enc(*ef, v, buf, a, base);
            assert(dec_value(*ef, buf.take(a), se as nat, true) == dec_value_sub(
                *ef,
                buf.take(a),
                se as nat,
                se as nat,
            ));
        },
    }
}

/// Field-list version of [`lemma_dec_payload_enc`].
proof fn lemma_dec_fields_enc(fs: Seq<Formula>, xs: Seq<Value>, buf: Seq<u8>, e: int, base: int)
    requires
        crate::formula::Formula::all_wf(fs),
        vmatch_all(fs, xs),
        fs.len() == xs.len(),
        0 <= base,
        base + fields_heap(fs, xs) <= e - fields_stack(fs, xs),
        e <= buf.len(),
        e <= MAX_WIRE_SIZE,
        buf.subrange(base, base + fields_heap(fs, xs)) == enc_fields_heap(fs, xs, base),
        buf.subrange(e - fields_stack(fs, xs), e) == enc_fields_stack(fs, xs, base),
    ensures
        dec_fields(fs, buf.take(e), fields_stack(fs, xs)) matches Ok(t) && t.0 == vmodels(xs),
    decreases xs, fs, 3int,
{
    lemma_enc_fields_len(fs, xs, base);
    if fs.len() == 0 {
        assert(vmodels(xs) =~= Seq::<ValueModel>::empty());
    } else if fs.len() == 1 {
        let s = fields_stack(fs, xs) as int;
        lemma_enc_len(fs[0], xs[0], base);
        assert(enc_fields_heap(fs, xs, base) == enc_heap(fs[0], xs[0], base)
            + enc_fields_heap(fs.drop_first(), xs.drop_first(), base + heap_size(fs[0], xs[0])));
        assert(enc_fields_heap(fs.drop_first(), xs.drop_first(), base + heap_size(fs[0], xs[0]))
            =~= Seq::<u8>::empty());
        assert(enc_fields_heap(fs, xs, base) =~= enc_heap(fs[0], xs[0], base));
        lemma_dec_payload_enc(fs[0], xs[0], buf, e, base);
        assert(dec_value(fs[0], buf.take(e), s as nat, true) == dec_value_sub(
            fs[0],
            buf.take(e),
            s as nat,
            s as nat,
        ));
        assert(xs.drop_first().len() == 0);
        assert(vmodels(xs.drop_first()) =~= Seq::<ValueModel>::empty());
        assert(vmodels(xs) =~= seq![xs[0]@]);
    } else {
        let f0 = fs[0];
        let x0 = xs[0];
        let slot = field_slot(f0, x0) as int;
        let h0 = heap_size(f0, x0) as int;
        let total_s = fields_stack(fs, xs) as int;
        let total_h = fields_heap(fs, xs) as int;
        let rest_s = fields_stack(fs.drop_first(), xs.drop_first()) as int;
        let rest_h = fields_heap(fs.drop_first(), xs.drop_first()) as int;
        lemma_enc_len(f0, x0, base);
        lemma_enc_fields_len(fs.drop_first(), xs.drop_first(), base + h0);
        if f0.hsize() is Some {
            lemma_sized_stack(f0, x0);
        }
        assert(total_s == slot + rest_s);
        assert(total_h == h0 + rest_h);
        // split the stack region: the first field's slot is at the tail
        lemma_concat_split(
            buf,
            e - total_s,
            e,
            enc_fields_stack(fs.drop_first(), xs.drop_first(), base + h0),
            enc_field_slot(f0, x0, base),
        );
        // split the heap region: the first field's bodies come first
        lemma_concat_split(
            buf,
            base,
            base + total_h,
            enc_heap(f0, x0, base),
            enc_fields_heap(fs.drop_first(), xs.drop_first(), base + h0),
        );
        lemma_dec_value_slot_enc(f0, x0, buf, e, base, total_s as nat);
        lemma_take_ops(buf, e, slot);
        lemma_dec_fields_enc(fs.drop_first(), xs.drop_first(), buf, e - slot, base + h0);
        assert(vmodels(xs) =~= seq![xs[0]@] + vmodels(xs.drop_first()));
    }
}

/// A non-final, possibly length-prefixed read of one value whose slot sits
/// at the tail of the window.
proof fn lemma_dec_value_slot_enc(
    f: Formula,
    v: Value,
    buf: Seq<u8>,
    e: int,
    base: int,
    stack: nat,
)
    requires
        f.wf(),
        vmatch(f, v),
        0 <= base,
        field_slot(f, v) <= stack,
        base + heap_size(f, v) <= e - stack,
        e <= buf.len(),
        e <= MAX_WIRE_SIZE,
        stack <= e,
        buf.subrange(base, base + heap_size(f, v)) == enc_heap(f, v, base),
        buf.subrange(e - field_slot(f, v), e) == enc_field_slot(f, v, base),
    ensures
        dec_value(f, buf.take(e), stack, false) == Ok::<(ValueModel, Seq<u8>, nat), Error>(
            (v@, buf.take(e - field_slot(f, v)), (stack - field_slot(f, v)) as nat),
        ),
    decreases v, f, 1int,
{
    vstd::bytes::lemma_auto_spec_u32_to_from_le_bytes();
    lemma_enc_len(f, v, base);
    match f.hsize() {
        Some(k) => {
            lemma_sized_stack(f, v);
            lemma_dec_payload_enc(f, v, buf, e, base);
            lemma_take_ops(buf, e, k as int);
            assert(dec_value(f, buf.take(e), stack, false) == dec_value_sub(
                f,
                buf.take(e),
                stack,
                k,
            ));
        },
        None => {
            let p = stack_size(f, v) as int;
            lemma_concat_split(
                buf,
                e - field_slot(f, v),
                e,
                enc_stack(f, v, base),
                spec_u32_to_le_bytes(p as u32),
            );
            lemma_take_ops(buf, e, 4);
            assert(buf.take(e).skip(e - 4) == buf.subrange(e - 4, e));
            assert(spec_u32_from_le_bytes(buf.subrange(e - 4, e)) == p as u32);
            lemma_dec_payload_enc(f, v, buf, e - 4, base);
            lemma_take_ops(buf, e - 4, p);
            assert(buf.take(e).take(e - 4) == buf.take(e - 4));
            assert(buf.take(e - 4).take(e - 4 - p) == buf.take(e - 4 - p));
        },
    }
}

/// One lazy element step over an encoded element slot at the tail of the
/// window.
proof fn lemma_dec_iter_step_enc(
    f: Formula,
    v: Value,
    buf: Seq<u8>,
    e: int,
    base: int,
    stack: nat,
)
    requires
        f.wf(),
        vmatch(f, v),
        0 <= base,
        elem_slot(f, v) <= stack,
        base + heap_size(f, v) <= e - stack,
        e <= buf.len(),
        e <= MAX_WIRE_SIZE,
        stack <= e,
        buf.subrange(base, base + heap_size(f, v)) == enc_heap(f, v, base),
        buf.subrange(e - elem_slot(f, v), e) == enc_elem_slot(f, v, base),
    ensures
        iter_step(f, buf.take(e), stack) == Ok::<(ValueModel, Seq<u8>, nat), Error>(
            (v@, buf.take(e - elem_slot(f, v)), (stack - elem_slot(f, v)) as nat),
        ),
    decreases v, f, 2int,
{
    lemma_enc_len(f, v, base);
    if f.hsize() == Some(0nat) {
        lemma_take_ops(buf, e, 1);
        lemma_sized_stack(f, v);
        lemma_zero_sized_heapless(f);
        crate::value::lemma_heapless_zero(f, v);
        assert(buf.subrange(base, base) =~= Seq::<u8>::empty());
        assert(enc_heap(f, v, base) =~= Seq::<u8>::empty());
        assert(enc_stack(f, v, base) =~= Seq::<u8>::empty());
        assert(buf.subrange(e - 1 - 0, e - 1) =~= Seq::<u8>::empty());
        lemma_dec_payload_enc(f, v, buf, e - 1, base);
        assert(buf.take(e).take(e - 1) == buf.take(e - 1));
    } else {
        assert(elem_slot(f, v) == field_slot(f, v));
        assert(enc_elem_slot(f, v, base) == enc_field_slot(f, v, base));
        lemma_dec_value_slot_enc(f, v, buf, e, base, stack);
    }
}

/// Element-list version of [`lemma_dec_payload_enc`].
proof fn lemma_dec_elems_enc(ef: Formula, xs: Seq<Value>, buf: Seq<u8>, e: int, base: int)
    requires
        ef.wf(),
        vmatch_elems(ef, xs),
        0 <= base,
        base + elems_heap(ef, xs) <= e - elems_stack(ef, xs),
        e <= buf.len(),
        e <= MAX_WIRE_SIZE,
        buf.subrange(base, base + elems_heap(ef, xs)) == enc_elems_heap(ef, xs, base),
        buf.subrange(e - elems_stack(ef, xs), e) == enc_elems_stack(ef, xs, base),
    ensures
        dec_elems(ef, buf.take(e), elems_stack(ef, xs)) matches Ok(t) && t.0 == vmodels(xs),
    decreases xs, ef, 3int,
{
    lemma_enc_elems_len(ef, xs, base);
    if xs.len() == 0 {
        assert(vmodels(xs) =~= Seq::<ValueModel>::empty());
    } else {
        let x0 = xs[0];
        let slot = elem_slot(ef, x0) as int;
        let h0 = heap_size(ef, x0) as int;
        let total_s = elems_stack(ef, xs) as int;
        let total_h = elems_heap(ef, xs) as int;
        let rest_s = elems_stack(ef, xs.drop_first()) as int;
        let rest_h = elems_heap(ef, xs.drop_first()) as int;
        lemma_enc_len(ef, x0, base);
        lemma_enc_elems_len(ef, xs.drop_first(), base + h0);
        if ef.hsize() is Some {
            lemma_sized_stack(ef, x0);
        }
        assert(total_s == slot + rest_s);
        assert(total_h == h0 + rest_h);
        lemma_concat_split(
            buf,
            e - total_s,
            e,
            enc_elems_stack(ef, xs.drop_first(), base + h0),
            enc_elem_slot(ef, x0, base),
        );
        lemma_concat_split(
            buf,
            base,
            base + total_h,
            enc_heap(ef, x0, base),
            enc_elems_heap(ef, xs.drop_first(), base + h0),
        );
        assert(slot >= 1);
        lemma_dec_iter_step_enc(ef, x0, buf, e, base, total_s as nat);
        lemma_take_ops(buf, e, slot);
        lemma_dec_elems_enc(ef, xs.drop_first(), buf, e - slot, base + h0);
        assert(vmodels(xs) =~= seq![xs[0]@] + vmodels(xs.drop_first()));
    }
}

/// Size agreement: when the fast per-count size estimate applies (a
/// heapless element formula of fixed header size), the bytes a sequence
/// actually occupies equal the estimate exactly: the element count times
/// the per-element slot for the headers, and no body bytes at all.
pub proof fn lemma_size_agreement(e: Formula, xs: Seq<Value>, base: int)
    requires
        e.heapless(),
        e.hsize() is Some,
        vmatch_elems(e, xs),
    ensures
        elems_stack(e, xs) == xs.len() * crate::value::sized_slot(e),
        elems_heap(e, xs) == 0,
        enc_elems_stack(e, xs, base).len() == xs.len() * crate::value::sized_slot(e),
        enc_elems_heap(e, xs, base).len() == 0,
{
    crate::value::lemma_sized_elems_stack(e, xs);
    crate::value::lemma_heapless_zero_elems(e, xs);
    lemma_enc_elems_len(e, xs, base);
}

/// Exhaustion then retry: an encodable value needs exactly
/// `8 + heap + stack` bytes; the encoded message has exactly that length,
/// and it is a function of the formula and value alone, so a retry after an
/// exhaustion report produces byte-identical output.  Which destinations
/// are refused is fixed by the contract of
/// [`crate::serialize::serialize_or_size`]: a buffer shorter than this
/// length is reported with this length, and any longer buffer receives
/// exactly [`enc_message`].
pub proof fn lemma_required_size(f: Formula, v: Value)
    requires
        encodable(f, v),
    ensures
        enc_message(f, v).len() == 8 + heap_size(f, v) + stack_size(f, v),
{
    vstd::bytes::lemma_auto_spec_u32_to_from_le_bytes();
    lemma_enc_len(f, v, 8);
}

/// Address validation: a message whose address runs past the input fails
/// with `OutOfBounds`, and one whose size exceeds its address fails with
/// `WrongAddress`; the size check comes first.
pub proof fn lemma_address_validation(f: Formula, input: Seq<u8>)
    requires
        input.len() >= 8,
    ensures
        spec_u32_from_le_bytes(input.subrange(4, 8)) > spec_u32_from_le_bytes(input.take(4))
            ==> spec_deserialize(f, input) == Err::<(ValueModel, nat), Error>(Error::WrongAddress),
        spec_u32_from_le_bytes(input.subrange(4, 8)) <= spec_u32_from_le_bytes(input.take(4))
            && spec_u32_from_le_bytes(input.take(4)) > input.len() ==> spec_deserialize(f, input)
            == Err::<(ValueModel, nat), Error>(Error::OutOfBounds),
{
}

/// Variant coverage, rejection half: decoding a tagged-union payload whose
/// tag is outside the declared variant range fails with `WrongVariant`
/// carrying that tag.
pub proof fn lemma_wrong_variant_rejected(vs: Vec<Formula>, win: Seq<u8>, stack: nat)
    requires
        4 <= stack <= win.len(),
        spec_u32_from_le_bytes(win.skip(win.len() - 4)) as int >= vs@.len(),
    ensures
        dec_payload(Formula::Union(vs), win, stack) == Err::<ValueModel, Error>(
            Error::WrongVariant(spec_u32_from_le_bytes(win.skip(win.len() - 4))),
        ),
{
}

/// Variant coverage, encoding half: encoding a union value writes its tag
/// as the last four bytes of its header, after the chosen variant's fields
/// and any padding.
pub proof fn lemma_variant_tag_written(vs: Vec<Formula>, tag: u32, val: Box<Value>, base: int)
    requires
        (tag as int) < vs@.len(),
        vmatch(vs@[tag as int], *val),
    ensures
        ({
            let stack = enc_stack(Formula::Union(vs), Value::Variant(tag, val), base);
            stack.len() >= 4 && stack.skip(stack.len() - 4) == spec_u32_to_le_bytes(tag)
        }),
{
    vstd::bytes::lemma_auto_spec_u32_to_from_le_bytes();
    let f = Formula::Union(vs);
    let v = Value::Variant(tag, val);
    lemma_enc_len(vs@[tag as int], *val, base);
    let stack = enc_stack(f, v, base);
    match crate::formula::Formula::variants_max(vs@) {
        Some(m) => {
            lemma_variants_max_bound(vs@, tag as int);
            lemma_sized_stack(vs@[tag as int], *val);
            let pad = zeros((m - stack_size(vs@[tag as int], *val)) as nat);
            let body = enc_stack(vs@[tag as int], *val, base);
            assert(stack == pad + body + spec_u32_to_le_bytes(tag));
            assert(stack.skip(stack.len() - 4) =~= spec_u32_to_le_bytes(tag));
        },
        None => {
            let body = enc_stack(vs@[tag as int], *val, base);
            assert(stack == body + spec_u32_to_le_bytes(tag));
            assert(stack.skip(stack.len() - 4) =~= spec_u32_to_le_bytes(tag));
        },
    }
}

/// Round trip: decoding an encoded message yields exactly the value that
/// was written, together with the message's total length.
pub proof fn lemma_round_trip(f: Formula, v: Value)
    requires
        encodable(f, v),
    ensures
        spec_deserialize(f, enc_message(f, v)) == Ok::<(ValueModel, nat), Error>(
            (v@, enc_message(f, v).len() as nat),
        ),
{
    vstd::bytes::lemma_auto_spec_u32_to_from_le_bytes();
    lemma_enc_len(f, v, 8);
    let msg = enc_message(f, v);
    let h = heap_size(f, v) as int;
    let s = stack_size(f, v) as int;
    let total = 8 + h + s;
    assert(msg.len() == total);
    assert(msg.subrange(0, total) =~= msg);
    assert(msg =~= spec_u32_to_le_bytes(total as u32) + (spec_u32_to_le_bytes(s as u32)
        + enc_heap(f, v, 8) + enc_stack(f, v, 8)));
    lemma_concat_split(
        msg,
        0,
        total,
        spec_u32_to_le_bytes(total as u32),
        spec_u32_to_le_bytes(s as u32) + enc_heap(f, v, 8) + enc_stack(f, v, 8),
    );
    assert(msg.take(4) =~= msg.subrange(0, 4));
    assert(msg.subrange(4, total) =~= spec_u32_to_le_bytes(s as u32) + (enc_heap(f, v, 8)
        + enc_stack(f, v, 8)));
    lemma_concat_split(
        msg,
        4,
        total,
        spec_u32_to_le_bytes(s as u32),
        enc_heap(f, v, 8) + enc_stack(f, v, 8),
    );
    lemma_concat_split(msg, 8, total, enc_heap(f, v, 8), enc_stack(f, v, 8));
    assert(spec_u32_from_le_bytes(msg.take(4)) == total as u32);
    assert(spec_u32_from_le_bytes(msg.subrange(4, 8)) == s as u32);
    assert(msg.take(total) =~= msg);
    lemma_dec_payload_enc(f, v, msg, total, 8);
    assert(dec_value(f, msg.take(total), s as nat, true) == dec_value_sub(
        f,
        msg.take(total),
        s as nat,
        s as nat,
    ));
}

} // verus!

