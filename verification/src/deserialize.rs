//! The read protocol.
//!
//! A [`Deserializer`] is a bounds-checked cursor `(input, stack)` over a
//! byte region: `input` is the prefix of the original buffer still
//! addressable, and `stack` is the number of bytes, counted from the tail
//! of that window, still owned by the value being decoded.  Reads always
//! consume from the tail, mirroring the write order; `(address, size)`
//! pairs re-anchor the cursor into an earlier prefix of the same buffer.
//!
//! Every decoding step is specified by a `dec_*` spec function over
//! `(window, stack)`; the executable methods return exactly what those
//! functions say, value and error alike.

use vstd::prelude::*;

use crate::formula::Formula;
use crate::formula::SIZE_STACK;
use crate::value::Value;
use crate::value::ValueModel;
use vstd::bytes::spec_u32_from_le_bytes;
use vstd::slice::slice_subrange;

verus! {

broadcast use vstd::seq::group_seq_axioms, vstd::std_specs::vec::group_vec_axioms;

/// Error that can occur during deserialization.
///
/// `InvalidUsize`, `InvalidIsize` and `NonUtf8` belong to the taxonomy for
/// hosts narrower than the wire integer width and for text adapters; the
/// core codec itself never produces them.
#[derive(Clone, Copy, Debug, PartialEq, Eq)]
pub enum Error {
    /// The input buffer is smaller than the expected value length.
    OutOfBounds,
    /// A relative address is invalid.
    WrongAddress,
    /// A read or a nested field claim exceeds the cursor's remaining window.
    WrongLength,
    /// A stored size exceeds the maximum `usize` of the current platform.
    InvalidUsize(u32),
    /// A stored offset exceeds the maximum `isize` of the current platform.
    InvalidIsize(i32),
    /// A tagged-union tag is outside the declared variant range.
    WrongVariant(u32),
    /// A text payload is not valid UTF-8.
    NonUtf8,
}

/// Takes `n` bytes from the tail of the window: the bytes read, then the
/// shrunk window and stack.
pub open spec fn dec_read_bytes(win: Seq<u8>, stack: nat, n: nat) -> Result<
    (Seq<u8>, Seq<u8>, nat),
    Error,
> {
    if n > stack {
        Err(Error::WrongLength)
    } else {
        Ok(
            (
                win.skip(win.len() - n),
                win.take(win.len() - n),
                (stack - n) as nat,
            ),
        )
    }
}

/// Reads one wire integer: grants the whole stack when `last`, else exactly
/// [`SIZE_STACK`] bytes, and decodes the four bytes at the tail of the
/// granted window.
pub open spec fn dec_u32(win: Seq<u8>, stack: nat, last: bool) -> Result<
    (u32, Seq<u8>, nat),
    Error,
> {
    let grant: nat = if last {
        stack
    } else {
        SIZE_STACK as nat
    };
    if grant > stack || grant < 4 {
        Err(Error::WrongLength)
    } else {
        Ok(
            (
                spec_u32_from_le_bytes(win.skip(win.len() - 4)),
                win.take(win.len() - grant),
                (stack - grant) as nat,
            ),
        )
    }
}

/// Resolves an `(address, size)` pair at the tail of the window: checks
/// that the pair is the only content left, that the address stays inside
/// the shrunk window and that `size <= address`, and re-anchors to the
/// prefix `win[..address]` with `size` bytes of stack.
pub open spec fn dec_deref(win: Seq<u8>, stack: nat) -> Result<(Seq<u8>, nat), Error> {
    match dec_read_bytes(win, stack, 8) {
        Err(e) => Err(e),
        Ok((pair, w, s)) => {
            let a = spec_u32_from_le_bytes(pair.take(4));
            let sz = spec_u32_from_le_bytes(pair.skip(4));
            if a > w.len() {
                Err(Error::WrongAddress)
            } else if s != 0 {
                Err(Error::WrongLength)
            } else if sz > a {
                Err(Error::WrongAddress)
            } else {
                Ok((w.take(a as int), sz as nat))
            }
        },
    }
}

/// Reads one value of formula `f`: grants the whole stack when `last`, the
/// fixed header size when the formula has one, else the length carried by a
/// prefix wire integer; then decodes the granted window as the value's
/// payload.
pub open spec fn dec_value(f: Formula, win: Seq<u8>, stack: nat, last: bool) -> Result<
    (ValueModel, Seq<u8>, nat),
    Error,
>
    decreases f, stack, 2int, 1int,
{
    if last {
        dec_value_sub(f, win, stack, stack)
    } else {
        match f.hsize() {
            Some(k) => dec_value_sub(f, win, stack, k),
            None => match dec_u32(win, stack, false) {
                Err(e) => Err(e),
                Ok((n, w, s)) => dec_value_sub(f, w, s, n as nat),
            },
        }
    }
}

/// Grants `n` bytes at the tail of the window to a nested payload decode.
pub open spec fn dec_value_sub(f: Formula, win: Seq<u8>, stack: nat, n: nat) -> Result<
    (ValueModel, Seq<u8>, nat),
    Error,
>
    decreases f, stack, 2int, 0int,
{
    if n > stack {
        Err(Error::WrongLength)
    } else {
        match dec_payload(f, win, n) {
            Err(e) => Err(e),
            Ok(v) => Ok((v, win.take(win.len() - n), (stack - n) as nat)),
        }
    }
}

/// Decodes the payload of one value from the `n` bytes granted to it at the
/// tail of the window.  Bytes of the granted window that a fixed-size
/// decode does not reach are ignored; they are the padding of enclosing
/// fixed-size unions.
pub open spec fn dec_payload(f: Formula, win: Seq<u8>, stack: nat) -> Result<ValueModel, Error>
    decreases f, stack, 1int, 0int,
{
    match f {
        Formula::U8 => match dec_read_bytes(win, stack, 1) {
            Err(e) => Err(e),
            Ok((b, _, _)) => Ok(ValueModel::U8(b[0])),
        },
        Formula::U32 => match dec_read_bytes(win, stack, 4) {
            Err(e) => Err(e),
            Ok((b, _, _)) => Ok(ValueModel::U32(spec_u32_from_le_bytes(b))),
        },
        Formula::Bool => match dec_read_bytes(win, stack, 1) {
            Err(e) => Err(e),
            Ok((b, _, _)) => Ok(ValueModel::Bool(b[0] != 0)),
        },
        Formula::Record(fs) => match dec_fields(fs@, win, stack) {
            Err(e) => Err(e),
            Ok((vs, _, _)) => Ok(ValueModel::Record(vs)),
        },
        Formula::Union(vs) => match dec_read_bytes(win, stack, 4) {
            Err(e) => Err(e),
            Ok((tb, w, s)) => {
                let tag = spec_u32_from_le_bytes(tb);
                if tag as int >= vs@.len() {
                    Err(Error::WrongVariant(tag))
                } else {
                    match dec_value(vs@[tag as int], w, s, f.hsize() is None) {
                        Err(e) => Err(e),
                        Ok((v, _, _)) => Ok(ValueModel::Variant(tag, seq![v])),
                    }
                }
            },
        },
        Formula::Slice(e) => match dec_elems(*e, win, stack) {
            Err(er) => Err(er),
            Ok((vs, _, _)) => Ok(ValueModel::List(vs)),
        },
        Formula::Ref(e) => match dec_deref(win, stack) {
            Err(er) => Err(er),
            Ok((w, s)) => match dec_value(*e, w, s, true) {
                Err(er) => Err(er),
                Ok((v, _, _)) => Ok(v),
            },
        },
    }
}

/// Decodes a record's fields in declaration order from the tail of the
/// window; only the final field is read without an explicit length.
pub open spec fn dec_fields(fs: Seq<Formula>, win: Seq<u8>, stack: nat) -> Result<
    (Seq<ValueModel>, Seq<u8>, nat),
    Error,
>
    decreases fs, stack, 0int, 0int,
{
    if fs.len() == 0 {
        Ok((Seq::empty(), win, stack))
    } else if fs.len() == 1 {
        match dec_value(fs[0], win, stack, true) {
            Err(e) => Err(e),
            Ok((v, w, s)) => Ok((seq![v], w, s)),
        }
    } else {
        match dec_value(fs[0], win, stack, false) {
            Err(e) => Err(e),
            Ok((v, w, s)) => match dec_fields(fs.drop_first(), w, s) {
                Err(e) => Err(e),
                Ok((vs, w2, s2)) => Ok((seq![v] + vs, w2, s2)),
            },
        }
    }
}

/// One step of lazy sequence reading: decodes one element.  An element of
/// fixed size zero still consumes one byte, so the element count stays
/// recoverable from the byte length.
pub open spec fn iter_step(elem: Formula, win: Seq<u8>, stack: nat) -> Result<
    (ValueModel, Seq<u8>, nat),
    Error,
>
    decreases elem, stack, 2int, 2int,
{
    if elem.hsize() == Some(0nat) {
        match dec_read_bytes(win, stack, 1) {
            Err(e) => Err(e),
            Ok((_, w, s)) => match dec_payload(elem, w, 0) {
                Err(e) => Err(e),
                Ok(v) => Ok((v, w, s)),
            },
        }
    } else {
        dec_value(elem, win, stack, false)
    }
}

/// Decodes sequence elements until the stack is exhausted, propagating the
/// first failure.
pub open spec fn dec_elems(e: Formula, win: Seq<u8>, stack: nat) -> Result<
    (Seq<ValueModel>, Seq<u8>, nat),
    Error,
>
    decreases e, stack, 3int, 0int,
{
    if stack == 0 {
        Ok((Seq::empty(), win, stack))
    } else {
        match iter_step(e, win, stack) {
            Err(er) => Err(er),
            Ok((v, w, s)) => if s >= stack {
                Err(Error::WrongLength)
            } else {
                match dec_elems(e, w, s) {
                    Err(er) => Err(er),
                    Ok((vs, w2, s2)) => Ok((seq![v] + vs, w2, s2)),
                }
            },
        }
    }
}

/// Skips `n` values of formula `f`: for a fixed-size formula, `n` whole
/// element slots (one byte each when the fixed size is zero) are dropped
/// from the tail; for an unsized formula, `n` length-prefixed values are
/// dropped one by one.
pub open spec fn dec_skip(f: Formula, win: Seq<u8>, stack: nat, n: nat) -> Result<
    (Seq<u8>, nat),
    Error,
>
    decreases n,
{
    if n == 0 {
        Ok((win, stack))
    } else {
        match f.hsize() {
            Some(_) => {
                let total = crate::value::sized_slot(f) * n;
                if total > stack {
                    Err(Error::WrongLength)
                } else {
                    Ok((win.take(win.len() - total), (stack - total) as nat))
                }
            },
            None => match dec_u32(win, stack, false) {
                Err(e) => Err(e),
                Ok((len, w, s)) => match dec_read_bytes(w, s, len as nat) {
                    Err(e) => Err(e),
                    Ok((_, w2, s2)) => dec_skip(f, w2, s2, (n - 1) as nat),
                },
            },
        }
    }
}

/// A bounds-checked cursor over a byte region.
///
/// After a method returns an error the cursor is unchanged; the result and
/// the error of every read are exactly those of the corresponding `dec_*`
/// spec function.
#[must_use]
#[derive(Clone, Copy)]
pub struct Deserializer<'de> {
    /// Input buffer sub-slice usable for deserialization.
    input: &'de [u8],
    stack: usize,
}

impl<'de> Deserializer<'de> {
    /// The window: the prefix of the original buffer still addressable.
    pub closed spec fn window(self) -> Seq<u8> {
        self.input@
    }

    /// The stack: bytes still owned by the current value, counted from the
    /// tail of the window.
    pub closed spec fn remaining(self) -> nat {
        self.stack as nat
    }

    /// The cursor invariant: the stack never exceeds the window.
    pub open spec fn wf(self) -> bool {
        self.remaining() <= self.window().len()
    }

    /// Creates a cursor over `input` owning its last `stack` bytes; fails
    /// with [`Error::OutOfBounds`] if the buffer is shorter than that.
    pub fn new(stack: usize, input: &'de [u8]) -> (r: Result<Self, Error>)
        ensures
            stack > input@.len() ==> r == Err::<Self, Error>(Error::OutOfBounds),
            stack <= input@.len() ==> (r matches Ok(d) && d.window() == input@ && d.remaining()
                == stack && d.wf()),
    {
        if stack > input.len() {
            return Err(Error::OutOfBounds);
        }
        Ok(Self::new_unchecked(stack, input))
    }

    /// Creates a cursor over `input` owning its last `stack` bytes; the
    /// caller guarantees that the buffer is long enough.
    pub fn new_unchecked(stack: usize, input: &'de [u8]) -> (d: Self)
        requires
            stack <= input@.len(),
        ensures
            d.window() == input@,
            d.remaining() == stack,
            d.wf(),
    {
        Deserializer { input, stack }
    }

    /// Splits off a sub-cursor owning the last `stack` bytes of the window;
    /// this cursor keeps what lies below them.
    pub(crate) fn sub(&mut self, stack: usize) -> (r: Result<Deserializer<'de>, Error>)
        requires
            old(self).wf(),
        ensures
            final(self).wf(),
            old(self).remaining() < stack ==> r == Err::<Deserializer<'de>, Error>(
                Error::WrongLength,
            ) && *final(self) == *old(self),
            old(self).remaining() >= stack ==> (r matches Ok(d) && d.window() == old(
                self,
            ).window() && d.remaining() == stack && d.wf() && final(self).window() == old(
                self,
            ).window().take(old(self).window().len() - stack) && final(self).remaining() == old(
                self,
            ).remaining() - stack),
    {
        if self.stack < stack {
            return Err(Error::WrongLength);
        }
        let sub = Deserializer::new_unchecked(stack, self.input);
        self.stack = self.stack - stack;
        let inp: &'de [u8] = self.input;
        let end = inp.len() - stack;
        self.input = slice_subrange(inp, 0, end);
        Ok(sub)
    }

    /// Takes `len` bytes from the tail of the window.
    pub fn read_bytes(&mut self, len: usize) -> (r: Result<&'de [u8], Error>)
        requires
            old(self).wf(),
        ensures
            final(self).wf(),
            match r {
                Ok(b) => dec_read_bytes(old(self).window(), old(self).remaining(), len as nat)
                    matches Ok(t) && b@ == t.0 && final(self).window() == t.1 && final(self).remaining() == t.2,
                Err(e) => dec_read_bytes(old(self).window(), old(self).remaining(), len as nat)
                    matches Err(e2) && e == e2 && *final(self) == *old(self),
            },
    {
        if len > self.stack {
            return Err(Error::WrongLength);
        }
        let inp: &'de [u8] = self.input;
        let at = inp.len() - len;
        let tail = slice_subrange(inp, at, inp.len());
        self.input = slice_subrange(inp, 0, at);
        self.stack = self.stack - len;
        Ok(tail)
    }

    /// Hands out the last `stack` bytes of the window: everything the
    /// current value still owns.
    pub fn read_all_bytes(self) -> (r: &'de [u8])
        requires
            self.wf(),
        ensures
            r@ == self.window().skip(self.window().len() - self.remaining()),
    {
        let inp: &'de [u8] = self.input;
        let at = inp.len() - self.stack;
        slice_subrange(inp, at, inp.len())
    }

    /// Reads one wire integer; see [`dec_u32`].
    pub fn read_auto(&mut self, last: bool) -> (r: Result<u32, Error>)
        requires
            old(self).wf(),
        ensures
            final(self).wf(),
            match r {
                Ok(x) => dec_u32(old(self).window(), old(self).remaining(), last) matches Ok(t)
                    && x == t.0 && final(self).window() == t.1 && final(self).remaining() == t.2,
                Err(e) => dec_u32(old(self).window(), old(self).remaining(), last) matches Err(e2)
                    && e == e2 && *final(self) == *old(self),
            },
    {
        let grant: usize = if last {
            self.stack
        } else {
            SIZE_STACK
        };
        if grant > self.stack || grant < 4 {
            return Err(Error::WrongLength);
        }
        let inp: &'de [u8] = self.input;
        let bytes = slice_subrange(inp, inp.len() - 4, inp.len());
        let x = vstd::bytes::u32_from_le_bytes(bytes);
        self.input = slice_subrange(inp, 0, inp.len() - grant);
        self.stack = self.stack - grant;
        Ok(x)
    }

    /// Reads one wire integer into `place`; on an error `place` and the
    /// cursor are unchanged.
    pub fn read_auto_in_place(&mut self, place: &mut u32, last: bool) -> (r: Result<(), Error>)
        requires
            old(self).wf(),
        ensures
            final(self).wf(),
            match r {
                Ok(_) => dec_u32(old(self).window(), old(self).remaining(), last) matches Ok(t)
                    && *final(place) == t.0 && final(self).window() == t.1 && final(self).remaining() == t.2,
                Err(e) => dec_u32(old(self).window(), old(self).remaining(), last) matches Err(e2)
                    && e == e2 && *final(self) == *old(self) && *final(place) == *old(place),
            },
    {
        match self.read_auto(last) {
            Ok(x) => {
                *place = x;
                Ok(())
            },
            Err(e) => Err(e),
        }
    }

    /// Resolves the `(address, size)` pair that is the sole remaining
    /// content of this cursor and re-anchors into the prefix it points at;
    /// see [`dec_deref`].
    pub fn deref(self) -> (r: Result<Deserializer<'de>, Error>)
        requires
            self.wf(),
        ensures
            match r {
                Ok(d) => dec_deref(self.window(), self.remaining()) matches Ok(t) && d.window()
                    == t.0 && d.remaining() == t.1 && d.wf(),
                Err(e) => dec_deref(self.window(), self.remaining()) matches Err(e2) && e == e2,
            },
    {
        let mut d = self;
        let pair = match d.read_bytes(8) {
            Ok(b) => b,
            Err(e) => {
                return Err(e);
            },
        };
        let a = vstd::bytes::u32_from_le_bytes(slice_subrange(pair, 0, 4)) as usize;
        let sz = vstd::bytes::u32_from_le_bytes(slice_subrange(pair, 4, 8)) as usize;
        let inp: &'de [u8] = d.input;
        if a > inp.len() {
            return Err(Error::WrongAddress);
        }
        if d.stack != 0 {
            return Err(Error::WrongLength);
        }
        if sz > a {
            return Err(Error::WrongAddress);
        }
        Ok(Deserializer::new_unchecked(sz, slice_subrange(inp, 0, a)))
    }

    /// Reads one value of formula `f`; see [`dec_value`].  `last` marks the
    /// unprefixed, rest-of-buffer final field of the enclosing composite.
    pub fn read_value(&mut self, f: &Formula, last: bool) -> (r: Result<Value, Error>)
        requires
            f.wf(),
            old(self).wf(),
        ensures
            final(self).wf(),
            match r {
                Ok(v) => dec_value(*f, old(self).window(), old(self).remaining(), last)
                    matches Ok(t) && v@ == t.0 && final(self).window() == t.1 && final(self).remaining() == t.2,
                Err(e) => dec_value(*f, old(self).window(), old(self).remaining(), last)
                    matches Err(e2) && e == e2 && *final(self) == *old(self),
            },
    {
        match decode_value(f, *self, last) {
            Ok((v, d)) => {
                *self = d;
                Ok(v)
            },
            Err(e) => Err(e),
        }
    }

    /// Reads one value of formula `f` into `place`; on an error `place`
    /// and the cursor are unchanged.
    pub fn read_in_place(&mut self, f: &Formula, place: &mut Value, last: bool) -> (r: Result<
        (),
        Error,
    >)
        requires
            f.wf(),
            old(self).wf(),
        ensures
            final(self).wf(),
            match r {
                Ok(_) => dec_value(*f, old(self).window(), old(self).remaining(), last)
                    matches Ok(t) && final(place)@ == t.0 && final(self).window() == t.1 && final(self).remaining() == t.2,
                Err(e) => dec_value(*f, old(self).window(), old(self).remaining(), last)
                    matches Err(e2) && e == e2 && *final(self) == *old(self) && *final(place)
                    == *old(place),
            },
    {
        match self.read_value(f, last) {
            Ok(v) => {
                *place = v;
                Ok(())
            },
            Err(e) => Err(e),
        }
    }

    /// Skips `n` values of formula `f`, dropping exactly the bytes those
    /// values occupy; see [`dec_skip`].  On an error the cursor is
    /// unchanged.
    pub fn skip_values(&mut self, f: &Formula, n: usize) -> (r: Result<(), Error>)
        requires
            f.wf(),
            old(self).wf(),
        ensures
            final(self).wf(),
            match r {
                Ok(_) => dec_skip(*f, old(self).window(), old(self).remaining(), n as nat)
                    matches Ok(t) && final(self).window() == t.0 && final(self).remaining()
                    == t.1,
                Err(e) => dec_skip(*f, old(self).window(), old(self).remaining(), n as nat)
                    matches Err(e2) && e == e2 && *final(self) == *old(self),
            },
    {
        if n == 0 {
            return Ok(());
        }
        match f.header_size() {
            Some(k) => {
                let slot: usize = if k == 0 {
                    1
                } else {
                    k
                };
                if n > self.stack / slot {
                    proof {
                        let s = self.stack as int;
                        let ki = slot as int;
                        let m = n as int;
                        vstd::arithmetic::div_mod::lemma_fundamental_div_mod(s, ki);
                        assert(ki * m > s) by (nonlinear_arith)
                            requires
                                ki >= 1,
                                m > s / ki,
                                s >= 0,
                                s / ki >= 0,
                                s == ki * (s / ki) + s % ki,
                                0 <= s % ki < ki,
                        ;
                    }
                    return Err(Error::WrongLength);
                }
                proof {
                    let s = self.stack as int;
                    let ki = slot as int;
                    let m = n as int;
                    vstd::arithmetic::div_mod::lemma_fundamental_div_mod(s, ki);
                    assert(ki * m <= s) by (nonlinear_arith)
                        requires
                            ki >= 1,
                            m <= s / ki,
                            m >= 0,
                            s >= 0,
                            s == ki * (s / ki) + s % ki,
                            0 <= s % ki < ki,
                    ;
                }
                let total = slot * n;
                match self.read_bytes(total) {
                    Ok(_) => Ok(()),
                    Err(e) => Err(e),
                }
            },
            None => {
                let ghost self0 = *self;
                let mut d = *self;
                let mut j: usize = 0;
                while j < n
                    invariant
                        j <= n,
                        f.wf(),
                        d.wf(),
                        *self == self0,
                        self0.wf(),
                        dec_skip(*f, self0.window(), self0.remaining(), n as nat) == dec_skip(
                            *f,
                            d.window(),
                            d.remaining(),
                            (n - j) as nat,
                        ),
                        f.hsize() is None,
                    decreases n - j,
                {
                    let ghost dw = d.window();
                    let ghost dr = d.remaining();
                    proof {
                        assert(dec_skip(*f, dw, dr, (n - j) as nat) == (match dec_u32(
                            dw,
                            dr,
                            false,
                        ) {
                            Err(e) => Err(e),
                            Ok((len, w, s)) => match dec_read_bytes(w, s, len as nat) {
                                Err(e) => Err(e),
                                Ok((_, w2, s2)) => dec_skip(*f, w2, s2, (n - j - 1) as nat),
                            },
                        }));
                    }
                    let len32 = match d.read_auto(false) {
                        Ok(x) => x,
                        Err(e) => {
                            return Err(e);
                        },
                    };
                    match d.read_bytes(len32 as usize) {
                        Ok(_) => {},
                        Err(e) => {
                            return Err(e);
                        },
                    }
                    j = j + 1;
                }
                *self = d;
                Ok(())
            },
        }
    }

    /// Turns the cursor into a lazy element reader over its remaining
    /// stack.
    pub fn into_iter(self, elem: &'de Formula) -> (r: Result<DeIter<'de>, Error>)
        requires
            self.wf(),
            elem.wf(),
        ensures
            r matches Ok(it) && it.window() == self.window() && it.remaining() == self.remaining()
                && it.elem() == *elem && it.wf(),
    {
        Ok(DeIter { de: self, elem })
    }

    /// Succeeds exactly when the current value has consumed its whole
    /// stack.
    pub fn finish(self) -> (r: Result<(), Error>)
        ensures
            self.remaining() == 0 ==> r == Ok::<(), Error>(()),
            self.remaining() != 0 ==> r == Err::<(), Error>(Error::WrongLength),
    {
        if self.stack == 0 {
            Ok(())
        } else {
            Err(Error::WrongLength)
        }
    }
}

/// Types that can be deserialized from the window a cursor grants them.
///
/// The whole remaining stack of the given cursor belongs to the value; the
/// decoded result is pinned by [`dec_payload`] through the type's view.
pub trait Deserialize: View<V = ValueModel> + Sized {
    /// Deserializes a value of formula `f` from the cursor's window.
    fn deserialize(f: &Formula, de: Deserializer<'_>) -> (r: Result<Self, Error>)
        requires
            f.wf(),
            de.wf(),
        ensures
            match r {
                Ok(w) => dec_payload(*f, de.window(), de.remaining()) matches Ok(m) && w@ == m,
                Err(e) => dec_payload(*f, de.window(), de.remaining()) matches Err(e2) && e == e2,
            },
    ;

    /// Deserializes a value of formula `f` into `self`; on an error `self`
    /// is unchanged.
    fn deserialize_in_place(&mut self, f: &Formula, de: Deserializer<'_>) -> (r: Result<
        (),
        Error,
    >)
        requires
            f.wf(),
            de.wf(),
        ensures
            match r {
                Ok(_) => dec_payload(*f, de.window(), de.remaining()) matches Ok(m) && final(self)@ == m,
                Err(e) => dec_payload(*f, de.window(), de.remaining()) matches Err(e2) && e == e2
                    && *final(self) == *old(self),
            },
    ;
}

impl Deserialize for Value {
    fn deserialize(f: &Formula, de: Deserializer<'_>) -> (r: Result<Self, Error>) {
        decode_payload(f, de)
    }

    fn deserialize_in_place(&mut self, f: &Formula, de: Deserializer<'_>) -> (r: Result<
        (),
        Error,
    >) {
        match decode_payload(f, de) {
            Ok(v) => {
                *self = v;
                Ok(())
            },
            Err(e) => Err(e),
        }
    }
}

/// A successful iterator step always consumes at least one byte of stack,
/// so lazy reading terminates.
pub proof fn lemma_iter_step_consumes(elem: Formula, win: Seq<u8>, stack: nat)
    ensures
        iter_step(elem, win, stack) matches Ok(t) ==> t.2 < stack,
{
}

/// The number of items a lazy element reader yields from the given state:
/// one per decoded element, plus one for the failure item if decoding
/// fails mid-stream.
pub open spec fn iter_count(elem: Formula, win: Seq<u8>, stack: nat) -> nat
    decreases stack,
{
    if stack == 0 {
        0nat
    } else {
        match iter_step(elem, win, stack) {
            Err(_) => 1nat,
            Ok((_, w, s)) => if s >= stack {
                1nat
            } else {
                1nat + iter_count(elem, w, s)
            },
        }
    }
}

/// The elements a lazy reader yields before it stops: everything on
/// success, or the prefix decoded before the first failure.
pub open spec fn dec_elems_prefix(elem: Formula, win: Seq<u8>, stack: nat) -> Seq<ValueModel>
    decreases stack,
{
    if stack == 0 {
        Seq::empty()
    } else {
        match iter_step(elem, win, stack) {
            Err(_) => Seq::empty(),
            Ok((v, w, s)) => if s >= stack {
                Seq::empty()
            } else {
                seq![v] + dec_elems_prefix(elem, w, s)
            },
        }
    }
}

/// A restartable-from-scratch, forward-only lazy sequence of decoded
/// elements over a slice-formula region.
///
/// While stack remains, each step decodes one element; on the first
/// decoding error the iterator discards all remaining input, yields
/// exactly one failure item, and then terminates permanently.
#[derive(Clone, Copy)]
pub struct DeIter<'de> {
    de: Deserializer<'de>,
    elem: &'de Formula,
}

impl<'de> DeIter<'de> {
    /// The window of the underlying cursor.
    pub closed spec fn window(self) -> Seq<u8> {
        self.de.window()
    }

    /// The stack of the underlying cursor.
    pub closed spec fn remaining(self) -> nat {
        self.de.remaining()
    }

    /// The element formula.
    pub closed spec fn elem(self) -> Formula {
        *self.elem
    }

    /// The iterator invariant.
    pub closed spec fn wf(self) -> bool {
        self.de.wf() && self.elem.wf()
    }

    /// Decodes the next element; see [`iter_step`].  After a failure item
    /// the iterator is empty for good.
    pub fn next(&mut self) -> (r: Option<Result<Value, Error>>)
        requires
            old(self).wf(),
        ensures
            final(self).wf(),
            final(self).elem() == old(self).elem(),
            old(self).remaining() == 0 ==> r is None && *final(self) == *old(self),
            old(self).remaining() > 0 ==> match iter_step(
                old(self).elem(),
                old(self).window(),
                old(self).remaining(),
            ) {
                Ok(t) => r matches Some(v) && v matches Ok(w) && w@ == t.0 && final(self).window()
                    == t.1 && final(self).remaining() == t.2,
                Err(e) => r == Some(Err::<Value, Error>(e)) && final(self).window() == Seq::<
                    u8,
                >::empty() && final(self).remaining() == 0,
            },
    {
        if self.de.stack == 0 {
            return None;
        }
        match decode_iter_step(self.elem, self.de) {
            Ok((v, d2)) => {
                self.de = d2;
                Some(Ok(v))
            },
            Err(e) => {
                let empty: &'de [u8] = &[];
                self.de = Deserializer::new_unchecked(0, empty);
                Some(Err(e))
            },
        }
    }

    /// Lower and upper bounds on the number of items left: exact for
    /// fixed-size elements, and `(0, stack / 4)` for length-prefixed ones,
    /// each of which needs at least a four-byte prefix.
    pub fn size_hint(&self) -> (r: (usize, Option<usize>))
        requires
            self.wf(),
        ensures
            self.elem().hsize() is None ==> r.0 == 0 && r.1 == Some(
                (self.remaining() / (SIZE_STACK as nat)) as usize,
            ),
            self.elem().hsize() matches Some(k) ==> ({
                if k == 0 {
                    r.0 == self.remaining() && r.1 == Some(self.remaining() as usize)
                } else {
                    r.0 == (self.remaining() + k - 1) / (k as int) && r.1 == Some(
                        ((self.remaining() + k - 1) / (k as int)) as usize,
                    )
                }
            }),
    {
        match self.elem.header_size() {
            None => (0, Some(self.de.stack / SIZE_STACK)),
            Some(k) => {
                if k == 0 {
                    (self.de.stack, Some(self.de.stack))
                } else {
                    let c = if self.de.stack == 0 {
                        0
                    } else {
                        (self.de.stack - 1) / k + 1
                    };
                    proof {
                        if self.de.stack > 0 {
                            vstd::arithmetic::div_mod::lemma_div_plus_one(
                                self.de.stack - 1,
                                k as int,
                            );
                        } else {
                            vstd::arithmetic::div_mod::lemma_basic_div(k as int - 1, k as int);
                        }
                    }
                    (c, Some(c))
                }
            },
        }
    }

    /// The number of items left, walking the elements when their size is
    /// not fixed; a failure item counts as one.
    pub fn count(self) -> (r: usize)
        requires
            self.wf(),
        ensures
            self.elem().hsize() is None ==> r == iter_count(
                self.elem(),
                self.window(),
                self.remaining(),
            ),
            self.elem().hsize() matches Some(k) ==> ({
                if k == 0 {
                    r == self.remaining()
                } else {
                    r == (self.remaining() + k - 1) / (k as int)
                }
            }),
    {
        match self.elem.header_size() {
            Some(_) => {
                let (lo, _) = self.size_hint();
                lo
            },
            None => {
                let ghost orig_win = self.window();
                let ghost orig_rem = self.remaining();
                let mut it = self;
                let mut c: usize = 0;
                while it.de.stack != 0
                    invariant
                        it.wf(),
                        it.elem() == self.elem(),
                        orig_rem <= usize::MAX,
                        iter_count(self.elem(), orig_win, orig_rem) == c + iter_count(
                            it.elem(),
                            it.window(),
                            it.remaining(),
                        ),
                        c <= orig_rem - it.remaining(),
                    decreases it.de.stack,
                {
                    match it.next() {
                        Some(_) => {
                            c = c + 1;
                        },
                        None => {},
                    }
                }
                c
            },
        }
    }

    /// Skips `n` values, then decodes the next element, so element `n` of
    /// the remaining sequence is yielded.  Returns `None` when the skip
    /// runs out of input.
    pub fn nth(&mut self, n: usize) -> (r: Option<Result<Value, Error>>)
        requires
            old(self).wf(),
        ensures
            final(self).wf(),
            final(self).elem() == old(self).elem(),
            match dec_skip(old(self).elem(), old(self).window(), old(self).remaining(), n as nat) {
                Err(_) => r is None && *final(self) == *old(self),
                Ok(t) => if t.1 == 0 {
                    r is None && final(self).window() == t.0 && final(self).remaining() == 0
                } else {
                    match iter_step(old(self).elem(), t.0, t.1) {
                        Ok(u) => r matches Some(v) && v matches Ok(w) && w@ == u.0 && final(self).window() == u.1 && final(self).remaining() == u.2,
                        Err(e) => r == Some(Err::<Value, Error>(e)) && final(self).window()
                            == Seq::<u8>::empty() && final(self).remaining() == 0,
                    }
                },
            },
    {
        if n > 0 {
            match self.de.skip_values(self.elem, n) {
                Ok(_) => {},
                Err(_) => {
                    return None;
                },
            }
        }
        self.next()
    }
}

/// Reads the leading wire integer of an encoded message: the total number
/// of bytes the message occupies.  `None` if the input cannot even hold
/// that integer.
pub fn value_size(input: &[u8]) -> (r: Option<usize>)
    ensures
        input@.len() < SIZE_STACK ==> r is None,
        input@.len() >= SIZE_STACK ==> r == Some(
            spec_u32_from_le_bytes(input@.take(SIZE_STACK as int)) as usize,
        ),
{
    if input.len() < SIZE_STACK {
        return None;
    }
    let b = slice_subrange(input, 0, SIZE_STACK);
    Some(vstd::bytes::u32_from_le_bytes(b) as usize)
}

/// What decoding a whole message yields: the root value and the end offset
/// of the root region, or the first error.  The message must begin with an
/// `(address, size)` pair satisfying `size <= address <= input length`.
pub open spec fn spec_deserialize(f: Formula, input: Seq<u8>) -> Result<(ValueModel, nat), Error> {
    if input.len() < 8 {
        Err(Error::OutOfBounds)
    } else {
        let a = spec_u32_from_le_bytes(input.take(4));
        let sz = spec_u32_from_le_bytes(input.subrange(4, 8));
        if sz > a {
            Err(Error::WrongAddress)
        } else if a > input.len() {
            Err(Error::OutOfBounds)
        } else {
            match dec_value(f, input.take(a as int), sz as nat, true) {
                Err(e) => Err(e),
                Ok((v, _, _)) => Ok((v, a as nat)),
            }
        }
    }
}

/// Decodes a whole message: returns the root value and the end offset of
/// the root region; see [`spec_deserialize`].
pub fn deserialize(f: &Formula, input: &[u8]) -> (r: Result<(Value, usize), Error>)
    requires
        f.wf(),
    ensures
        match r {
            Ok(p) => spec_deserialize(*f, input@) matches Ok(t) && p.0@ == t.0 && p.1 == t.1,
            Err(e) => spec_deserialize(*f, input@) matches Err(e2) && e == e2,
        },
{
    if input.len() < 8 {
        return Err(Error::OutOfBounds);
    }
    let a = vstd::bytes::u32_from_le_bytes(slice_subrange(input, 0, 4)) as usize;
    let sz = vstd::bytes::u32_from_le_bytes(slice_subrange(input, 4, 8)) as usize;
    if sz > a {
        return Err(Error::WrongAddress);
    }
    if a > input.len() {
        return Err(Error::OutOfBounds);
    }
    let de = Deserializer::new_unchecked(sz, slice_subrange(input, 0, a));
    match decode_value(f, de, true) {
        Ok((v, _)) => Ok((v, a)),
        Err(e) => Err(e),
    }
}

/// Decodes a whole message into `place`: on success `place` holds the root
/// value and the end offset is returned; on an error `place` is unchanged.
pub fn deserialize_in_place(f: &Formula, place: &mut Value, input: &[u8]) -> (r: Result<
    usize,
    Error,
>)
    requires
        f.wf(),
    ensures
        match r {
            Ok(end) => spec_deserialize(*f, input@) matches Ok(t) && final(place)@ == t.0 && end
                == t.1,
            Err(e) => spec_deserialize(*f, input@) matches Err(e2) && e == e2 && *final(place)
                == *old(place),
        },
{
    match deserialize(f, input) {
        Ok((v, end)) => {
            *place = v;
            Ok(end)
        },
        Err(e) => Err(e),
    }
}

fn decode_value<'de>(f: &Formula, de: Deserializer<'de>, last: bool) -> (r: Result<
    (Value, Deserializer<'de>),
    Error,
>)
    requires
        f.wf(),
        de.wf(),
    ensures
        match r {
            Ok(p) => dec_value(*f, de.window(), de.remaining(), last) matches Ok(t) && p.0@ == t.0
                && p.1.window() == t.1 && p.1.remaining() == t.2 && p.1.wf(),
            Err(e) => dec_value(*f, de.window(), de.remaining(), last) matches Err(e2) && e == e2,
        },
    decreases f, de.stack, 2int, 1int,
{
    let mut d = de;
    let grant: usize = if last {
        d.stack
    } else {
        match f.header_size() {
            Some(k) => k,
            None => {
                match d.read_auto(false) {
                    Ok(x) => x as usize,
                    Err(e) => {
                        return Err(e);
                    },
                }
            },
        }
    };
    let sub = match d.sub(grant) {
        Ok(s) => s,
        Err(e) => {
            return Err(e);
        },
    };
    match decode_payload(f, sub) {
        Ok(v) => Ok((v, d)),
        Err(e) => Err(e),
    }
}

fn decode_payload<'de>(f: &Formula, de: Deserializer<'de>) -> (r: Result<Value, Error>)
    requires
        f.wf(),
        de.wf(),
    ensures
        match r {
            Ok(v) => dec_payload(*f, de.window(), de.remaining()) matches Ok(m) && v@ == m,
            Err(e) => dec_payload(*f, de.window(), de.remaining()) matches Err(e2) && e == e2,
        },
    decreases f, de.stack, 1int, 0int,
{
    match f {
        Formula::U8 => {
            let mut d = de;
            match d.read_bytes(1) {
                Ok(b) => Ok(Value::U8(*vstd::slice::slice_index_get(b, 0))),
                Err(e) => Err(e),
            }
        },
        Formula::U32 => {
            let mut d = de;
            match d.read_bytes(4) {
                Ok(b) => Ok(Value::U32(vstd::bytes::u32_from_le_bytes(b))),
                Err(e) => Err(e),
            }
        },
        Formula::Bool => {
            let mut d = de;
            match d.read_bytes(1) {
                Ok(b) => Ok(Value::Bool(*vstd::slice::slice_index_get(b, 0) != 0)),
                Err(e) => Err(e),
            }
        },
        Formula::Record(fs) => {
            proof {
                crate::formula::lemma_all_wf(fs@);
                assert(fs@.skip(0) =~= fs@);
            }
            match decode_fields(fs, 0, de) {
                Ok((vals, _)) => Ok(Value::Record(vals)),
                Err(e) => Err(e),
            }
        },
        Formula::Union(vs) => {
            let mut d = de;
            let tb = match d.read_bytes(4) {
                Ok(b) => b,
                Err(e) => {
                    return Err(e);
                },
            };
            let tag = vstd::bytes::u32_from_le_bytes(tb);
            if tag as usize >= vs.len() {
                return Err(Error::WrongVariant(tag));
            }
            proof {
                crate::formula::lemma_all_wf(vs@);
            }
            let last = match f.header_size() {
                Some(_) => false,
                None => true,
            };
            match decode_value(&vs[tag as usize], d, last) {
                Ok((v, _)) => Ok(Value::Variant(tag, Box::new(v))),
                Err(e) => Err(e),
            }
        },
        Formula::Slice(e) => {
            match decode_elems(e, de) {
                Ok((vals, _)) => Ok(Value::List(vals)),
                Err(er) => Err(er),
            }
        },
        Formula::Ref(e) => {
            let d2 = match de.deref() {
                Ok(x) => x,
                Err(er) => {
                    return Err(er);
                },
            };
            match decode_value(e, d2, true) {
                Ok((v, _)) => Ok(v),
                Err(er) => Err(er),
            }
        },
    }
}

fn decode_fields<'de>(fs: &Vec<Formula>, i: usize, de: Deserializer<'de>) -> (r: Result<
    (Vec<Value>, Deserializer<'de>),
    Error,
>)
    requires
        i <= fs@.len(),
        forall|j: int| 0 <= j < fs@.len() ==> fs@[j].wf(),
        de.wf(),
    ensures
        match r {
            Ok(p) => dec_fields(fs@.skip(i as int), de.window(), de.remaining()) matches Ok(t)
                && crate::value::vmodels(p.0@) == t.0 && p.1.window() == t.1 && p.1.remaining()
                == t.2 && p.1.wf(),
            Err(e) => dec_fields(fs@.skip(i as int), de.window(), de.remaining()) matches Err(e2)
                && e == e2,
        },
    decreases fs, de.stack, 0int, fs@.len() - i,
{
    let ghost sfs = fs@.skip(i as int);
    if i == fs.len() {
        proof {
            assert(sfs =~= Seq::<Formula>::empty());
            assert(crate::value::vmodels(Seq::<Value>::empty()) =~= Seq::<
                crate::value::ValueModel,
            >::empty());
        }
        let vals: Vec<Value> = Vec::new();
        assert(vals@ =~= Seq::<Value>::empty());
        Ok((vals, de))
    } else {
        proof {
            assert(sfs[0] == fs@[i as int]);
            assert(sfs.drop_first() =~= fs@.skip(i as int + 1));
        }
        if i + 1 == fs.len() {
            match decode_value(&fs[i], de, true) {
                Err(e) => Err(e),
                Ok((v, d2)) => {
                    let mut vals: Vec<Value> = Vec::new();
                    vals.push(v);
                    proof {
                        assert(vals@[0] == v);
                        assert(vals@.drop_first() =~= Seq::<Value>::empty());
                        assert(crate::value::vmodels(Seq::<Value>::empty()) =~= Seq::<
                            crate::value::ValueModel,
                        >::empty());
                        assert(crate::value::vmodels(vals@) =~= seq![v@]);
                    }
                    Ok((vals, d2))
                },
            }
        } else {
            match decode_value(&fs[i], de, false) {
                Err(e) => Err(e),
                Ok((v, d2)) => {
                    match decode_fields(fs, i + 1, d2) {
                        Err(e) => Err(e),
                        Ok((vals, d3)) => {
                            let mut vals = vals;
                            let ghost rest = vals@;
                            vals.insert(0, v);
                            proof {
                                assert(vals@[0] == v);
                                assert(vals@.drop_first() =~= rest);
                                assert(crate::value::vmodels(vals@) =~= seq![v@]
                                    + crate::value::vmodels(rest));
                            }
                            Ok((vals, d3))
                        },
                    }
                },
            }
        }
    }
}

fn decode_iter_step<'de>(elem: &Formula, de: Deserializer<'de>) -> (r: Result<
    (Value, Deserializer<'de>),
    Error,
>)
    requires
        elem.wf(),
        de.wf(),
    ensures
        match r {
            Ok(p) => iter_step(*elem, de.window(), de.remaining()) matches Ok(t) && p.0@ == t.0
                && p.1.window() == t.1 && p.1.remaining() == t.2 && p.1.wf(),
            Err(e) => iter_step(*elem, de.window(), de.remaining()) matches Err(e2) && e == e2,
        },
    decreases elem, de.stack, 2int, 2int,
{
    let zero_sized = match elem.header_size() {
        Some(k) => k == 0,
        None => false,
    };
    if zero_sized {
        let mut d = de;
        match d.read_bytes(1) {
            Err(e) => Err(e),
            Ok(_) => {
                let sub = match d.sub(0) {
                    Ok(s) => s,
                    Err(e) => {
                        return Err(e);
                    },
                };
                proof {
                    assert(d.window().take(d.window().len() - 0) =~= d.window());
                }
                match decode_payload(elem, sub) {
                    Ok(v) => Ok((v, d)),
                    Err(e) => Err(e),
                }
            },
        }
    } else {
        decode_value(elem, de, false)
    }
}

fn decode_elems<'de>(e: &Formula, de: Deserializer<'de>) -> (r: Result<
    (Vec<Value>, Deserializer<'de>),
    Error,
>)
    requires
        e.wf(),
        de.wf(),
    ensures
        match r {
            Ok(p) => dec_elems(*e, de.window(), de.remaining()) matches Ok(t)
                && crate::value::vmodels(p.0@) == t.0 && p.1.window() == t.1 && p.1.remaining()
                == t.2 && p.1.wf(),
            Err(er) => dec_elems(*e, de.window(), de.remaining()) matches Err(e2) && er == e2,
        },
    decreases e, de.stack, 3int, 0int,
{
    if de.stack == 0 {
        proof {
            assert(crate::value::vmodels(Seq::<Value>::empty()) =~= Seq::<
                crate::value::ValueModel,
            >::empty());
        }
        let vals: Vec<Value> = Vec::new();
        assert(vals@ =~= Seq::<Value>::empty());
        return Ok((vals, de));
    }
    match decode_iter_step(e, de) {
        Err(er) => Err(er),
        Ok((v, d2)) => {
            if d2.stack >= de.stack {
                return Err(Error::WrongLength);
            }
            match decode_elems(e, d2) {
                Err(er) => Err(er),
                Ok((vals, d3)) => {
                    let mut vals = vals;
                    let ghost rest = vals@;
                    vals.insert(0, v);
                    proof {
                        assert(vals@[0] == v);
                        assert(vals@.drop_first() =~= rest);
                        assert(crate::value::vmodels(vals@) =~= seq![v@] + crate::value::vmodels(
                            rest,
                        ));
                    }
                    Ok((vals, d3))
                },
            }
        },
    }
}

} // verus!
