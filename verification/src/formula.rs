//! Static schema descriptors.
//!
//! A [`Formula`] records the layout facts both sides of the wire must agree
//! on: the fixed header size (or `None` when a value's size is only known at
//! run time), whether the value ever needs body ("heap") space, and whether
//! the header size alone determines the total occupied space.

use vstd::prelude::*;

verus! {

broadcast use vstd::seq::group_seq_axioms, vstd::std_specs::vec::group_vec_axioms;

/// Width in bytes of every wire integer: sizes, addresses and length
/// prefixes are all stored as 4-byte little-endian unsigned integers.
pub const SIZE_STACK: usize = 4;

/// Width in bytes of a tagged-union variant tag.
pub const VARIANT_SIZE: usize = 4;

/// Largest value a wire integer can carry; no encoded message, header or
/// body may be longer than this.
pub const MAX_WIRE_SIZE: u64 = 0xFFFF_FFFF;

/// Static layout description of a type.
///
/// Both the writer and the reader must use the same formula; nothing in the
/// wire bytes describes the structure beyond variant tags and
/// `(address, size)` pairs.
#[derive(Debug, PartialEq, Eq)]
pub enum Formula {
    /// One byte, heapless, exact.
    U8,
    /// Four bytes, little endian, heapless, exact.
    U32,
    /// One byte, nonzero meaning `true`.
    Bool,
    /// A composite of fields laid out in declaration order.
    Record(Vec<Formula>),
    /// A tagged union: a 4-byte tag followed by the chosen variant's fields,
    /// padded to the largest variant when every variant has a fixed size.
    Union(Vec<Formula>),
    /// A sequence of elements; its length is data-dependent, so it has no
    /// fixed header size.
    Slice(Box<Formula>),
    /// An indirection: the header holds an `(address, size)` pair pointing
    /// at a body region holding the referenced value.
    Ref(Box<Formula>),
}

impl Formula {
    /// Fixed header size in bytes, or `None` when the size is only known at
    /// run time and must be carried by a length prefix.
    pub open spec fn hsize(self) -> Option<nat>
        decreases self,
    {
        match self {
            Formula::U8 => Some(1nat),
            Formula::U32 => Some(4nat),
            Formula::Bool => Some(1nat),
            Formula::Record(fs) => Formula::fields_hsize(fs@),
            Formula::Union(vs) => match Formula::variants_max(vs@) {
                Some(m) => Some((VARIANT_SIZE + m) as nat),
                None => None,
            },
            Formula::Slice(_) => None,
            Formula::Ref(_) => Some(8nat),
        }
    }

    /// Sum of the field header sizes, or `None` if any field is unsized.
    pub open spec fn fields_hsize(fs: Seq<Formula>) -> Option<nat>
        decreases fs,
    {
        if fs.len() == 0 {
            Some(0nat)
        } else {
            match (fs[0].hsize(), Formula::fields_hsize(fs.drop_first())) {
                (Some(a), Some(b)) => Some((a + b) as nat),
                _ => None,
            }
        }
    }

    /// Largest variant header size, or `None` if any variant is unsized.
    pub open spec fn variants_max(vs: Seq<Formula>) -> Option<nat>
        decreases vs,
    {
        if vs.len() == 0 {
            Some(0nat)
        } else {
            match (vs[0].hsize(), Formula::variants_max(vs.drop_first())) {
                (Some(a), Some(b)) => Some(if a >= b { a } else { b }),
                _ => None,
            }
        }
    }

    /// Whether a value of this formula never needs body space.
    pub open spec fn heapless(self) -> bool
        decreases self,
    {
        match self {
            Formula::U8 => true,
            Formula::U32 => true,
            Formula::Bool => true,
            Formula::Record(fs) => Formula::all_heapless(fs@),
            Formula::Union(vs) => Formula::all_heapless(vs@),
            Formula::Slice(e) => e.heapless(),
            Formula::Ref(_) => false,
        }
    }

    /// Whether every formula in the sequence is heapless.
    pub open spec fn all_heapless(fs: Seq<Formula>) -> bool
        decreases fs,
    {
        if fs.len() == 0 {
            true
        } else {
            fs[0].heapless() && Formula::all_heapless(fs.drop_first())
        }
    }

    /// Whether the header size alone determines the total occupied space.
    pub open spec fn exact(self) -> bool
        decreases self,
    {
        match self {
            Formula::U8 => true,
            Formula::U32 => true,
            Formula::Bool => true,
            Formula::Record(fs) => Formula::all_exact(fs@),
            Formula::Union(vs) => Formula::all_exact(vs@),
            Formula::Slice(_) => false,
            Formula::Ref(_) => false,
        }
    }

    /// Whether every formula in the sequence is exact.
    pub open spec fn all_exact(fs: Seq<Formula>) -> bool
        decreases fs,
    {
        if fs.len() == 0 {
            true
        } else {
            fs[0].exact() && Formula::all_exact(fs.drop_first())
        }
    }

    /// Well-formedness: every union has at least one and at most
    /// [`MAX_WIRE_SIZE`] variants, and every fixed header size fits in a
    /// wire integer.
    pub open spec fn wf(self) -> bool
        decreases self,
    {
        (self.hsize() matches Some(k) ==> k <= MAX_WIRE_SIZE) && match self {
            Formula::U8 => true,
            Formula::U32 => true,
            Formula::Bool => true,
            Formula::Record(fs) => Formula::all_wf(fs@),
            Formula::Union(vs) => 0 < vs@.len() <= MAX_WIRE_SIZE && Formula::all_wf(vs@),
            Formula::Slice(e) => e.wf(),
            Formula::Ref(e) => e.wf(),
        }
    }

    /// Whether every formula in the sequence is well formed.
    pub open spec fn all_wf(fs: Seq<Formula>) -> bool
        decreases fs,
    {
        if fs.len() == 0 {
            true
        } else {
            fs[0].wf() && Formula::all_wf(fs.drop_first())
        }
    }
}

/// `all_wf` holds exactly when every element is well formed.
pub proof fn lemma_all_wf(fs: Seq<Formula>)
    ensures
        Formula::all_wf(fs) <==> (forall|i: int| 0 <= i < fs.len() ==> fs[i].wf()),
    decreases fs.len(),
{
    if fs.len() > 0 {
        lemma_all_wf(fs.drop_first());
        assert forall|i: int| 0 <= i < fs.len() && Formula::all_wf(fs) implies fs[i].wf() by {
            if i > 0 {
                assert(fs.drop_first()[i - 1] == fs[i]);
            }
        }
        if forall|i: int| 0 <= i < fs.len() ==> fs[i].wf() {
            assert forall|i: int| 0 <= i < fs.drop_first().len() implies fs.drop_first()[i].wf() by {
                assert(fs.drop_first()[i] == fs[i + 1]);
            }
        }
    }
}

/// `all_heapless` holds exactly when every element is heapless.
pub proof fn lemma_all_heapless(fs: Seq<Formula>)
    ensures
        Formula::all_heapless(fs) <==> (forall|i: int| 0 <= i < fs.len() ==> fs[i].heapless()),
    decreases fs.len(),
{
    if fs.len() > 0 {
        lemma_all_heapless(fs.drop_first());
        assert forall|i: int| 0 <= i < fs.len() && Formula::all_heapless(fs)
            implies fs[i].heapless() by {
            if i > 0 {
                assert(fs.drop_first()[i - 1] == fs[i]);
            }
        }
        if forall|i: int| 0 <= i < fs.len() ==> fs[i].heapless() {
            assert forall|i: int| 0 <= i < fs.drop_first().len()
                implies fs.drop_first()[i].heapless() by {
                assert(fs.drop_first()[i] == fs[i + 1]);
            }
        }
    }
}

impl Formula {
    /// Fixed header size in bytes, or `None` when a value's size must be
    /// carried by a length prefix.
    pub fn header_size(&self) -> (r: Option<usize>)
        requires
            self.wf(),
        ensures
            match r {
                Some(k) => self.hsize() == Some(k as nat),
                None => self.hsize() is None,
            },
    {
        match hsize_impl(self) {
            Some(k) => Some(k as usize),
            None => None,
        }
    }

    /// Whether a value of this formula never needs body space.
    pub fn is_heapless(&self) -> (r: bool)
        ensures
            r == self.heapless(),
    {
        heapless_impl(self)
    }

    /// Whether the header size alone determines the total occupied space.
    pub fn is_exact_size(&self) -> (r: bool)
        ensures
            r == self.exact(),
    {
        exact_impl(self)
    }

    /// Whether the formula is well formed; see [`Formula::wf`].
    pub fn check(&self) -> (r: bool)
        ensures
            r == self.wf(),
    {
        check_impl(self)
    }
}

fn hsize_impl(f: &Formula) -> (r: Option<u64>)
    requires
        f.wf(),
    ensures
        match r {
            Some(k) => f.hsize() == Some(k as nat) && k <= MAX_WIRE_SIZE,
            None => f.hsize() is None,
        },
    decreases f, 0int,
{
    match f {
        Formula::U8 => Some(1),
        Formula::U32 => Some(4),
        Formula::Bool => Some(1),
        Formula::Record(fs) => {
            proof {
                lemma_all_wf(fs@);
                assert(fs@.skip(0) =~= fs@);
            }
            match fields_hsize_impl(fs, 0) {
                Some(Some(k)) => Some(k),
                Some(None) => None,
                None => None,
            }
        },
        Formula::Union(vs) => {
            proof {
                lemma_all_wf(vs@);
                assert(vs@.skip(0) =~= vs@);
            }
            match variants_max_impl(vs, 0) {
                Some(m) => Some(VARIANT_SIZE as u64 + m),
                None => None,
            }
        },
        Formula::Slice(_) => None,
        Formula::Ref(_) => Some(8),
    }
}

/// Computes the sum of the field header sizes of `fs[i..]`.
///
/// `None` means some field is unsized; `Some(None)` means the sum is fixed
/// but exceeds [`MAX_WIRE_SIZE`].
fn fields_hsize_impl(fs: &Vec<Formula>, i: usize) -> (r: Option<Option<u64>>)
    requires
        i <= fs@.len(),
        forall|j: int| 0 <= j < fs@.len() ==> fs@[j].wf(),
    ensures
        match r {
            Some(Some(k)) => Formula::fields_hsize(fs@.skip(i as int)) == Some(k as nat) && k
                <= MAX_WIRE_SIZE,
            Some(None) => Formula::fields_hsize(fs@.skip(i as int)) matches Some(k) && k
                > MAX_WIRE_SIZE,
            None => Formula::fields_hsize(fs@.skip(i as int)) is None,
        },
    decreases fs, fs@.len() - i,
{
    if i == fs.len() {
        assert(fs@.skip(i as int) =~= Seq::<Formula>::empty());
        Some(Some(0))
    } else {
        proof {
            assert(fs@.skip(i as int)[0] == fs@[i as int]);
            assert(fs@.skip(i as int).drop_first() =~= fs@.skip(i as int + 1));
        }
        let rest = fields_hsize_impl(fs, i + 1);
        let cur = hsize_impl(&fs[i]);
        match (cur, rest) {
            (Some(a), Some(Some(b))) => {
                let sum = a + b;
                if sum <= MAX_WIRE_SIZE {
                    Some(Some(sum))
                } else {
                    Some(None)
                }
            },
            (Some(_), Some(None)) => Some(None),
            _ => None,
        }
    }
}

/// Computes the largest variant header size of `vs[i..]`, or `None` if any
/// variant in that suffix is unsized.
fn variants_max_impl(vs: &Vec<Formula>, i: usize) -> (r: Option<u64>)
    requires
        i <= vs@.len(),
        forall|j: int| 0 <= j < vs@.len() ==> vs@[j].wf(),
    ensures
        match r {
            Some(m) => Formula::variants_max(vs@.skip(i as int)) == Some(m as nat) && m
                <= MAX_WIRE_SIZE,
            None => Formula::variants_max(vs@.skip(i as int)) is None,
        },
    decreases vs, vs@.len() - i,
{
    if i == vs.len() {
        assert(vs@.skip(i as int) =~= Seq::<Formula>::empty());
        Some(0)
    } else {
        proof {
            assert(vs@.skip(i as int)[0] == vs@[i as int]);
            assert(vs@.skip(i as int).drop_first() =~= vs@.skip(i as int + 1));
        }
        let rest = variants_max_impl(vs, i + 1);
        let cur = hsize_impl(&vs[i]);
        match (cur, rest) {
            (Some(a), Some(b)) => Some(if a >= b {
                a
            } else {
                b
            }),
            _ => None,
        }
    }
}

fn heapless_impl(f: &Formula) -> (r: bool)
    ensures
        r == f.heapless(),
    decreases f, 0int,
{
    match f {
        Formula::U8 => true,
        Formula::U32 => true,
        Formula::Bool => true,
        Formula::Record(fs) => {
            proof {
                assert(fs@.skip(0) =~= fs@);
            }
            all_heapless_impl(fs, 0)
        },
        Formula::Union(vs) => {
            proof {
                assert(vs@.skip(0) =~= vs@);
            }
            all_heapless_impl(vs, 0)
        },
        Formula::Slice(e) => heapless_impl(e),
        Formula::Ref(_) => false,
    }
}

fn all_heapless_impl(fs: &Vec<Formula>, i: usize) -> (r: bool)
    requires
        i <= fs@.len(),
    ensures
        r == Formula::all_heapless(fs@.skip(i as int)),
    decreases fs, fs@.len() - i,
{
    if i == fs.len() {
        assert(fs@.skip(i as int) =~= Seq::<Formula>::empty());
        true
    } else {
        proof {
            assert(fs@.skip(i as int)[0] == fs@[i as int]);
            assert(fs@.skip(i as int).drop_first() =~= fs@.skip(i as int + 1));
        }
        heapless_impl(&fs[i]) && all_heapless_impl(fs, i + 1)
    }
}

fn exact_impl(f: &Formula) -> (r: bool)
    ensures
        r == f.exact(),
    decreases f, 0int,
{
    match f {
        Formula::U8 => true,
        Formula::U32 => true,
        Formula::Bool => true,
        Formula::Record(fs) => {
            proof {
                assert(fs@.skip(0) =~= fs@);
            }
            all_exact_impl(fs, 0)
        },
        Formula::Union(vs) => {
            proof {
                assert(vs@.skip(0) =~= vs@);
            }
            all_exact_impl(vs, 0)
        },
        Formula::Slice(_) => false,
        Formula::Ref(_) => false,
    }
}

fn all_exact_impl(fs: &Vec<Formula>, i: usize) -> (r: bool)
    requires
        i <= fs@.len(),
    ensures
        r == Formula::all_exact(fs@.skip(i as int)),
    decreases fs, fs@.len() - i,
{
    if i == fs.len() {
        assert(fs@.skip(i as int) =~= Seq::<Formula>::empty());
        true
    } else {
        proof {
            assert(fs@.skip(i as int)[0] == fs@[i as int]);
            assert(fs@.skip(i as int).drop_first() =~= fs@.skip(i as int + 1));
        }
        exact_impl(&fs[i]) && all_exact_impl(fs, i + 1)
    }
}

fn check_impl(f: &Formula) -> (r: bool)
    ensures
        r == f.wf(),
    decreases f, 0int,
{
    match f {
        Formula::U8 => true,
        Formula::U32 => true,
        Formula::Bool => true,
        Formula::Record(fs) => {
            proof {
                assert(fs@.skip(0) =~= fs@);
            }
            if !all_check_impl(fs, 0) {
                return false;
            }
            proof {
                lemma_all_wf(fs@);
            }
            match fields_hsize_impl(fs, 0) {
                Some(None) => false,
                _ => true,
            }
        },
        Formula::Union(vs) => {
            if vs.len() == 0 {
                return false;
            }
            if vs.len() as u64 > MAX_WIRE_SIZE {
                return false;
            }
            proof {
                assert(vs@.skip(0) =~= vs@);
            }
            if !all_check_impl(vs, 0) {
                return false;
            }
            proof {
                lemma_all_wf(vs@);
            }
            match variants_max_impl(vs, 0) {
                Some(m) => VARIANT_SIZE as u64 + m <= MAX_WIRE_SIZE,
                None => true,
            }
        },
        Formula::Slice(e) => check_impl(e),
        Formula::Ref(e) => check_impl(e),
    }
}

fn all_check_impl(fs: &Vec<Formula>, i: usize) -> (r: bool)
    requires
        i <= fs@.len(),
    ensures
        r == Formula::all_wf(fs@.skip(i as int)),
    decreases fs, fs@.len() - i,
{
    if i == fs.len() {
        assert(fs@.skip(i as int) =~= Seq::<Formula>::empty());
        true
    } else {
        proof {
            assert(fs@.skip(i as int)[0] == fs@[i as int]);
            assert(fs@.skip(i as int).drop_first() =~= fs@.skip(i as int + 1));
        }
        check_impl(&fs[i]) && all_check_impl(fs, i + 1)
    }
}

} // verus!
