//! An untyped vector that hands out slots for data of a given memory layout.
//! A slot is named by its byte offset from the start of the vector's data array.
use std::alloc::Layout;
use vstd::prelude::*;

verus! {

#[verifier::external_type_specification]
#[verifier::external_body]
pub struct ExLayout(Layout);

/// The size in bytes of a layout, as `Layout::size` gives it.
pub uninterp spec fn layout_size(layout: Layout) -> usize;

/// The alignment in bytes of a layout, as `Layout::align` gives it.
pub uninterp spec fn layout_align(layout: Layout) -> usize;

/// `size` rounded up to a multiple of `align`.
pub open spec fn round_up(size: int, align: int) -> int {
    ((size + align - 1) / align) * align
}

/// `Layout::size`: the layout's size. Claimed: the result is `layout_size(*layout)`.
#[verifier::external_body]
fn size_of(layout: &Layout) -> (r: usize)
    ensures
        r == layout_size(*layout),
{
    layout.size()
}

/// `Layout::align`: the layout's alignment. Claimed, as `Layout` documents of every
/// layout: it is a power of two (so positive and at most `isize::MAX + 1`), and the size
/// rounded up to it does not exceed `isize::MAX`.
#[verifier::external_body]
fn align_of(layout: &Layout) -> (r: usize)
    ensures
        r == layout_align(*layout),
        0 < r <= isize::MAX + 1,
        round_up(layout_size(*layout) as int, r as int) <= isize::MAX,
{
    layout.align()
}

/// The layout `Layout::pad_to_align` makes of a layout.
pub uninterp spec fn padded_layout(layout: Layout) -> Layout;

/// `Layout::pad_to_align`: claimed, as documented, to keep the alignment and round the
/// size up to a multiple of it.
#[verifier::external_body]
fn padded(layout: &Layout) -> (r: Layout)
    ensures
        r == padded_layout(*layout),
        layout_align(r) == layout_align(*layout),
        layout_size(r) as int == round_up(layout_size(*layout) as int, layout_align(*layout) as int),
{
    layout.pad_to_align()
}

/// Why a slot could not be made.
#[derive(Debug, Clone, Copy, PartialEq, Eq)]
pub enum VecError {
    CapacityOverflow,
    AllocError(Layout),
}

/// An untyped vector of slots, each `data_size()` bytes.
pub struct PtrVec {
    layout: Layout,
    size: usize,
    align: usize,
    len: usize,
    cap: usize,
}

/// The value of a [`PtrVec`]: slot size and alignment, slots in use, slots reserved.
pub struct PtrVecModel {
    pub size: nat,
    pub align: nat,
    pub len: nat,
    pub cap: nat,
}

impl View for PtrVec {
    type V = PtrVecModel;

    closed spec fn view(&self) -> PtrVecModel {
        PtrVecModel {
            size: self.size as nat,
            align: self.align as nat,
            len: self.len as nat,
            cap: self.cap as nat,
        }
    }
}

/// The most slots a vector of sized data may reserve.
pub open spec fn max_cap(align: nat) -> int {
    isize::MAX - (align - 1)
}

/// The room a vector has after making room for `need` slots, before bounds are checked.
pub open spec fn grown_cap(m: PtrVecModel, need: nat) -> nat {
    if need <= m.cap {
        m.cap
    } else if need > 2 * m.cap {
        need
    } else {
        2 * m.cap
    }
}

/// Growing to `need` slots keeps the room's byte size within a `usize` whenever the
/// slot bound allows the growth.
pub open spec fn grow_fits(m: PtrVecModel, need: nat) -> bool {
    grown_cap(m, need) <= max_cap(m.align) ==> grown_cap(m, need) * m.size <= usize::MAX
}

/// The slot at `index` of a vector with value `m`: its byte offset, if it is in use.
pub open spec fn slot(m: PtrVecModel, index: int) -> Option<usize> {
    if 0 <= index < m.len {
        Some((index * m.size) as usize)
    } else {
        None
    }
}

/// A successful push keeps every slot where it was and adds the slot it returned last,
/// so that getting the old length gives back what the push gave.
pub proof fn lemma_push_slots(m: PtrVecModel, m2: PtrVecModel, p: usize)
    requires
        m2.len == m.len + 1,
        m2.size == m.size,
        p == m.len * m.size,
    ensures
        forall|i: int| 0 <= i < m.len ==> slot(m2, i) == slot(m, i),
        slot(m2, m.len as int) == Some(p),
{
}

/// Making room never shrinks it; room that is short grows to at least what is needed and
/// at least twice the old room, and to no more than the larger of the two, so a run of
/// pushes reallocates only each time the room doubles.
pub proof fn lemma_growth(m: PtrVecModel, need: nat)
    ensures
        grown_cap(m, need) >= m.cap,
        grown_cap(m, need) >= need,
        need <= m.cap ==> grown_cap(m, need) == m.cap,
        need > m.cap ==> grown_cap(m, need) >= 2 * m.cap,
        need > m.cap ==> grown_cap(m, need) == need || grown_cap(m, need) == 2 * m.cap,
{
}

impl PtrVec {
    /// Sizes and counts are consistent: the slot size and alignment are the size and
    /// alignment of the padded layout, the size a multiple of the alignment; zero-sized
    /// data never needs room, and the room reserved for sized data stays within
    /// `isize::MAX - (align - 1)` slots and fits in a `usize` of bytes.
    pub open spec fn wf(&self) -> bool {
        let m = self@;
        &&& m.size == layout_size(self.spec_layout())
        &&& m.align == layout_align(self.spec_layout())
        &&& m.size % m.align == 0
        &&& m.align > 0
        &&& m.size == 0 ==> m.cap == usize::MAX
        &&& m.size > 0 ==> m.cap <= max_cap(m.align)
        &&& m.cap * m.size <= usize::MAX
        &&& m.len <= m.cap
    }

    /// The layout of the data, padded to its alignment.
    pub closed spec fn spec_layout(&self) -> Layout {
        self.layout
    }

    /// A vector for data of `layout`, holding no slots and reserving none (zero-sized
    /// data: unbounded room).
    pub fn new(layout: Layout) -> (v: Self)
        ensures
            v.wf(),
            v@.len == 0,
            v@.size == round_up(layout_size(layout) as int, layout_align(layout) as int),
            v@.align == layout_align(layout),
            v@.cap == (if layout_size(layout) == 0 { usize::MAX as nat } else { 0 }),
            v.spec_layout() == padded_layout(layout),
    {
        let size = size_of(&layout);
        let align = align_of(&layout);
        let cap = if size == 0 {
            usize::MAX
        } else {
            0
        };
        let padded = padded(&layout);
        let padded_size = size_of(&padded);
        let padded_align = align_of(&padded);
        proof {
            let a = align as int;
            if size == 0 {
                vstd::arithmetic::div_mod::lemma_basic_div(a - 1, a);
                assert(round_up(0, a) == 0) by (nonlinear_arith)
                    requires
                        (a - 1) / a == 0,
                        round_up(0, a) == ((0 + a - 1) / a) * a,
                ;
            } else {
                assert(round_up(size as int, a) >= 1) by (nonlinear_arith)
                    requires
                        size >= 1,
                        a >= 1,
                        round_up(size as int, a) == ((size + a - 1) / a) * a,
                ;
            }
            vstd::arithmetic::div_mod::lemma_mod_multiples_basic((size + a - 1) / a, a);
            assert(padded_size as int % padded_align as int == 0);
        }
        PtrVec { layout: padded, size: padded_size, align: padded_align, len: 0, cap }
    }

    /// Reserves room for at least `cap` slots of sized data: nothing to do when there is
    /// room; otherwise the room grows to `cap` or twice the old room, whichever is more,
    /// unless that is more than [`max_cap`] slots.
    fn ensure_cap(&mut self, cap: usize) -> (r: Result<(), VecError>)
        requires
            old(self).wf(),
            old(self)@.size > 0,
            grow_fits(old(self)@, cap as nat),
        ensures
            final(self).wf(),
            final(self).spec_layout() == old(self).spec_layout(),
            cap <= old(self)@.cap ==> r is Ok && final(self)@ == old(self)@,
            cap > old(self)@.cap && grown_cap(old(self)@, cap as nat) > max_cap(old(self)@.align)
                ==> r == Err::<(), VecError>(VecError::CapacityOverflow) && final(self)@ == old(self)@,
            cap > old(self)@.cap && grown_cap(old(self)@, cap as nat) <= max_cap(old(self)@.align)
                ==> r is Ok && final(self)@ == (PtrVecModel { cap: grown_cap(old(self)@, cap as nat), ..old(self)@ }),
    {
        if cap <= self.cap {
            return Ok(());
        }
        let double = self.cap * 2;
        let new_cap = if cap > double {
            cap
        } else {
            double
        };
        let max_size = (isize::MAX as usize) - (self.align - 1);
        if new_cap > max_size {
            return Err(VecError::CapacityOverflow);
        }
        self.cap = new_cap;
        Ok(())
    }

    /// Makes one more slot and returns it: `CapacityOverflow` when the slot count or the
    /// room would exceed its bound.
    pub fn try_push(&mut self) -> (r: Result<usize, VecError>)
        requires
            old(self).wf(),
            old(self)@.size == 0 ==> old(self)@.len < usize::MAX,
            old(self)@.size > 0 && old(self)@.len < usize::MAX ==> grow_fits(old(self)@, old(self)@.len + 1),
        ensures
            final(self).wf(),
            final(self).spec_layout() == old(self).spec_layout(),
            old(self)@.size == 0 ==> r == Ok::<usize, VecError>(0) && final(self)@ == (PtrVecModel { len: old(self)@.len + 1, ..old(self)@ }),
            old(self)@.size > 0 ==> match r {
                Ok(p) => {
                    &&& grown_cap(old(self)@, old(self)@.len + 1) <= max_cap(old(self)@.align)
                    &&& p == old(self)@.len * old(self)@.size
                    &&& final(self)@ == (PtrVecModel {
                        len: old(self)@.len + 1,
                        cap: grown_cap(old(self)@, old(self)@.len + 1),
                        ..old(self)@
                    })
                },
                Err(e) => {
                    &&& e == VecError::CapacityOverflow
                    &&& grown_cap(old(self)@, old(self)@.len + 1) > max_cap(old(self)@.align)
                    &&& final(self)@ == old(self)@
                },
            },
    {
        if self.size == 0 {
            self.len = self.len + 1;
            return Ok(0);
        }
        let index = self.len;
        let new_len = match index.checked_add(1) {
            Some(n) => n,
            None => return Err(VecError::CapacityOverflow),
        };
        self.ensure_cap(new_len)?;
        self.len = new_len;
        proof {
            assert(index * self@.size <= self@.cap * self@.size) by (nonlinear_arith)
                requires
                    index < self@.cap,
            ;
        }
        Ok(index * self.size)
    }

    /// The number of slots in use.
    pub fn len(&self) -> (n: usize)
        ensures
            n == self@.len,
    {
        self.len
    }

    /// Whether no slot is in use.
    pub fn is_empty(&self) -> (b: bool)
        ensures
            b == (self@.len == 0),
    {
        self.len == 0
    }

    /// The padded layout of the data.
    pub fn layout(&self) -> (l: Layout)
        ensures
            l == self.spec_layout(),
    {
        self.layout
    }

    /// The size of one slot: the padded layout's size, a multiple of the alignment.
    pub fn data_size(&self) -> (n: usize)
        ensures
            n == self@.size,
            self.wf() ==> n == layout_size(self.spec_layout()) && n % layout_align(self.spec_layout()) == 0,
    {
        self.size
    }

    /// The alignment of the data: the padded layout's alignment.
    pub fn data_align(&self) -> (n: usize)
        ensures
            n == self@.align,
            self.wf() ==> n == layout_align(self.spec_layout()),
    {
        self.align
    }

    /// The size in bytes of the reserved room.
    pub fn array_size(&self) -> (n: usize)
        requires
            self.wf(),
        ensures
            n == self@.cap * self@.size,
    {
        self.cap * self.size
    }

    /// The number of slots reserved.
    pub fn capacity(&self) -> (n: usize)
        ensures
            n == self@.cap,
    {
        self.cap
    }

    /// The first slot, if any is in use.
    pub fn first(&self) -> (p: Option<usize>)
        ensures
            p == (if self@.len == 0 { None } else { Some(0usize) }),
    {
        if self.len == 0 {
            return None;
        }
        Some(0)
    }

    /// The slot at `index`, if it is in use.
    pub fn get(&self, index: usize) -> (p: Option<usize>)
        requires
            self.wf(),
        ensures
            p == (if index < self@.len { Some((index * self@.size) as usize) } else { None }),
    {
        if index >= self.len {
            return None;
        }
        proof {
            assert(index * self@.size <= self@.cap * self@.size) by (nonlinear_arith)
                requires
                    index < self@.cap,
            ;
        }
        Some(index * self.size)
    }

    /// The last slot (the slot at 0 when none is in use, which is then `None`).
    pub fn last(&self) -> (p: Option<usize>)
        requires
            self.wf(),
        ensures
            p == (if self@.len == 0 { None } else { Some(((self@.len - 1) * self@.size) as usize) }),
    {
        self.get(self.len.saturating_sub(1))
    }

    /// Gives up the last `amount` slots (all of them if there are fewer).
    pub fn trim(&mut self, amount: usize)
        requires
            old(self).wf(),
        ensures
            final(self).wf(),
            final(self)@ == (PtrVecModel {
                len: if amount >= old(self)@.len { 0 } else { (old(self)@.len - amount) as nat },
                ..old(self)@
            }),
            final(self).spec_layout() == old(self).spec_layout(),
    {
        self.len = self.len.saturating_sub(amount)
    }

    /// An iterator over every slot in use.
    pub fn iter(&self) -> (it: Iter<'_>)
        ensures
            it.index() == 0,
            it.vec() == self,
    {
        self.iter_from(0)
    }

    /// An iterator over the slots in use from `start` on.
    pub fn iter_from(&self, start: usize) -> (it: Iter<'_>)
        ensures
            it.index() == start,
            it.vec() == self,
    {
        Iter { vec: self, index: start }
    }
}

/// What `n` calls of [`Iter::next`] give, from position `index`.
pub open spec fn iter_outputs(m: PtrVecModel, index: nat, n: nat) -> Seq<Option<usize>>
    decreases n,
{
    if n == 0 {
        Seq::empty()
    } else if index < m.len {
        seq![slot(m, index as int)] + iter_outputs(m, index + 1, (n - 1) as nat)
    } else {
        seq![None] + iter_outputs(m, index, (n - 1) as nat)
    }
}

/// An iterator from `start` gives every slot in use from `start` on, once each and in
/// order, and then only `None`: call `i` gives the slot at `start + i`.
pub proof fn lemma_iter_outputs(m: PtrVecModel, start: nat, n: nat)
    ensures
        iter_outputs(m, start, n).len() == n,
        forall|i: int| 0 <= i < n ==> #[trigger] iter_outputs(m, start, n)[i] == slot(m, start + i),
    decreases n,
{
    if n > 0 {
        if start < m.len {
            lemma_iter_outputs(m, start + 1, (n - 1) as nat);
            assert forall|i: int| 0 <= i < n implies #[trigger] iter_outputs(m, start, n)[i] == slot(m, start + i) by {
                if i > 0 {
                    assert(iter_outputs(m, start, n)[i] == iter_outputs(m, start + 1, (n - 1) as nat)[i - 1]);
                }
            }
        } else {
            lemma_iter_outputs(m, start, (n - 1) as nat);
            assert forall|i: int| 0 <= i < n implies #[trigger] iter_outputs(m, start, n)[i] == slot(m, start + i) by {
                if i > 0 {
                    assert(iter_outputs(m, start, n)[i] == iter_outputs(m, start, (n - 1) as nat)[i - 1]);
                }
            }
        }
    }
}

/// An iterator over the slots of a [`PtrVec`].
pub struct Iter<'a> {
    vec: &'a PtrVec,
    index: usize,
}

impl<'a> Iter<'a> {
    pub closed spec fn index(&self) -> usize {
        self.index
    }

    pub closed spec fn vec(&self) -> &'a PtrVec {
        self.vec
    }

    /// The next slot in use, if any; then moves past it.
    pub fn next(&mut self) -> (p: Option<usize>)
        requires
            old(self).vec().wf(),
        ensures
            final(self).vec() == old(self).vec(),
            old(self).index() < old(self).vec()@.len ==> p == Some(
                (old(self).index() * old(self).vec()@.size) as usize,
            ) && final(self).index() == old(self).index() + 1,
            old(self).index() >= old(self).vec()@.len ==> p is None && final(self).index()
                == old(self).index(),
    {
        let p = self.vec.get(self.index);
        if p.is_some() {
            self.index = self.index + 1;
        }
        p
    }
}

} // verus!
