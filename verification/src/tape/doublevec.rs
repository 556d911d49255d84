//! A vector that is indexed by signed offsets and grows at both ends.
//!
//! Offsets `0, 1, 2, ...` live in the front side, offsets `-1, -2, -3, ...` in
//! the back side. Growing one side never moves an element of the other.

use vstd::prelude::*;

verus! {

/// The position inside its side at which an offset is stored: offset `i >= 0`
/// sits at position `i` of the front, offset `i < 0` at position `-i - 1` of
/// the back.
pub open spec fn side_pos(index: int) -> int {
    if index >= 0 {
        index
    } else {
        -index - 1
    }
}

/// The mathematical content of a [`DoubleVec`]: its two sides.
#[verifier::ext_equal]
pub struct Sides<T> {
    /// Position `p` holds offset `-p - 1`.
    pub back: Seq<T>,
    /// Position `p` holds offset `p`.
    pub front: Seq<T>,
}

impl<T> Sides<T> {
    /// The side that stores `index`.
    pub open spec fn side(self, index: int) -> Seq<T> {
        if index >= 0 {
            self.front
        } else {
            self.back
        }
    }

    /// The same content with the side that stores `index` replaced.
    pub open spec fn with_side(self, index: int, side: Seq<T>) -> Self {
        if index >= 0 {
            Sides { back: self.back, front: side }
        } else {
            Sides { back: side, front: self.front }
        }
    }

    /// The lowest stored offset, or 0 when the back is empty.
    pub open spec fn lo(self) -> int {
        -(self.back.len() as int)
    }

    /// One past the highest stored offset.
    pub open spec fn hi(self) -> int {
        self.front.len() as int
    }

    /// Whether `index` is a stored offset.
    pub open spec fn fits(self, index: int) -> bool {
        self.lo() <= index < self.hi()
    }

    /// The element stored at `index`.
    pub open spec fn at(self, index: int) -> T
        recommends
            self.fits(index),
    {
        self.side(index)[side_pos(index)]
    }

    /// The content after storing `value` at the stored offset `index`.
    pub open spec fn put(self, index: int, value: T) -> Self
        recommends
            self.fits(index),
    {
        self.with_side(index, self.side(index).update(side_pos(index), value))
    }

    /// What a read at `index` sees when every offset that is not stored
    /// counts as holding `blank`.
    pub open spec fn read(self, index: int, blank: T) -> T {
        if self.fits(index) {
            self.at(index)
        } else {
            blank
        }
    }

    /// The content extended by as many `blank` elements as it takes to store
    /// `index`; unchanged when `index` is stored already.
    pub open spec fn covering(self, index: int, blank: T) -> Self {
        if self.fits(index) {
            self
        } else {
            self.with_side(
                index,
                self.side(index) + Seq::new(
                    (side_pos(index) + 1 - self.side(index).len()) as nat,
                    |k: int| blank,
                ),
            )
        }
    }

    /// The content after a write of `value` at any offset: the side of
    /// `index` first grows with `blank` elements as far as needed.
    pub open spec fn write(self, index: int, blank: T, value: T) -> Self {
        self.covering(index, blank).put(index, value)
    }

    /// All elements in ascending offset order: the back side read from its
    /// end to its start, then the front side.
    pub open spec fn ordered(self) -> Seq<T> {
        self.back.reverse() + self.front
    }
}

/// The content that a list of writes leaves behind, applied in order to a
/// content that stores nothing. Each write is an offset and a value.
pub open spec fn written<T>(writes: Seq<(int, T)>, blank: T) -> Sides<T>
    decreases writes.len(),
{
    if writes.len() == 0 {
        Sides { back: Seq::empty(), front: Seq::empty() }
    } else {
        written(writes.drop_last(), blank).write(writes.last().0, blank, writes.last().1)
    }
}

/// A read at an offset right after a write there sees what was written.
pub proof fn law_read_after_write<T>(content: Sides<T>, index: int, blank: T, value: T)
    ensures
        content.write(index, blank, value).fits(index),
        content.write(index, blank, value).read(index, blank) == value,
{
}

/// A write at one offset changes what a read sees at no other offset,
/// however far the content has to grow for the write.
pub proof fn law_write_keeps_others<T>(
    content: Sides<T>,
    index: int,
    blank: T,
    value: T,
    other: int,
)
    requires
        other != index,
    ensures
        content.write(index, blank, value).read(other, blank) == content.read(other, blank),
{
}

/// A write extends the stored range just far enough to hold its offset and
/// never shrinks it; every offset that it adds to the range, but for its
/// own, holds `blank`.
pub proof fn law_write_grows_with_blanks<T>(
    content: Sides<T>,
    index: int,
    blank: T,
    value: T,
    other: int,
)
    ensures
        content.write(index, blank, value).lo() == if index < content.lo() {
            index
        } else {
            content.lo()
        },
        content.write(index, blank, value).hi() == if index >= content.hi() {
            index + 1
        } else {
            content.hi()
        },
        content.write(index, blank, value).fits(other) && !content.fits(other) && other != index
            ==> content.write(index, blank, value).at(other) == blank,
{
}

/// An offset at which nothing was ever written reads as `blank`.
pub proof fn law_unwritten_reads_blank<T>(writes: Seq<(int, T)>, blank: T, index: int)
    requires
        forall|k: int| 0 <= k < writes.len() ==> (#[trigger] writes[k]).0 != index,
    ensures
        written(writes, blank).read(index, blank) == blank,
    decreases writes.len(),
{
    if writes.len() > 0 {
        let earlier = writes.drop_last();
        assert forall|k: int| 0 <= k < earlier.len() implies (#[trigger] earlier[k]).0
            != index by {
            assert(earlier[k] == writes[k]);
        }
        law_unwritten_reads_blank(earlier, blank, index);
        law_write_keeps_others(
            written(earlier, blank),
            writes.last().0,
            blank,
            writes.last().1,
            index,
        );
    }
}

/// The ordered traversal holds every stored offset once, in strictly
/// ascending order: its element number `k` is the one stored at offset
/// `lo() + k`.
pub proof fn law_ordered_ascends<T>(content: Sides<T>, k: int)
    requires
        0 <= k < content.hi() - content.lo(),
    ensures
        content.ordered().len() == content.hi() - content.lo(),
        content.ordered()[k] == content.at(content.lo() + k),
{
}

/// Translates a signed offset into its position and its side (`true` for the
/// front).
pub fn calc_index(index: isize) -> (r: (usize, bool))
    ensures
        r.0 == side_pos(index as int),
        r.1 == (index >= 0),
{
    if index < 0 {
        ((-(index + 1)) as usize, false)
    } else {
        (index as usize, true)
    }
}

/// A vector with a fixed origin that grows at both ends: it stores the
/// elements at the offsets from `lo()` up to, but not including, `hi()`.
/// Two such vectors are equal when their sides are.
#[derive(Debug, PartialEq, Eq)]
pub struct DoubleVec<T> {
    back: Vec<T>,
    front: Vec<T>,
}

impl<T> View for DoubleVec<T> {
    type V = Sides<T>;

    closed spec fn view(&self) -> Sides<T> {
        Sides { back: self.back@, front: self.front@ }
    }
}

impl<T> DoubleVec<T> {
    /// A vector that stores nothing.
    pub fn new() -> (r: Self)
        ensures
            r@ == (Sides { back: Seq::<T>::empty(), front: Seq::<T>::empty() }),
    {
        Self { back: Vec::new(), front: Vec::new() }
    }

    /// A vector with the given sides: `back[p]` gets offset `-p - 1`,
    /// `front[p]` gets offset `p`.
    pub fn with(back: Vec<T>, front: Vec<T>) -> (r: Self)
        ensures
            r@ == (Sides { back: back@, front: front@ }),
    {
        Self { back, front }
    }

    /// The number of stored elements.
    pub fn len(&self) -> (r: usize)
        requires
            self@.hi() - self@.lo() <= usize::MAX,
        ensures
            r == self@.hi() - self@.lo(),
    {
        self.back.len() + self.front.len()
    }

    /// The side that stores `index`, and the position of `index` in it.
    fn transform_index(&self, index: isize) -> (r: (&Vec<T>, usize))
        ensures
            r.0@ == self@.side(index as int),
            r.1 == side_pos(index as int),
    {
        let (i, is_positive) = calc_index(index);
        (if is_positive { &self.front } else { &self.back }, i)
    }

    /// The side that stores `index`, mutably, and the position of `index`
    /// in it. What the caller leaves in the side is the new side; the other
    /// side stays as it is.
    fn transform_index_mut(&mut self, index: isize) -> (r: (&mut Vec<T>, usize))
        ensures
            r.0@ == old(self)@.side(index as int),
            r.1 == side_pos(index as int),
            final(self)@ == old(self)@.with_side(index as int, final(r.0)@),
    {
        let (i, is_positive) = calc_index(index);
        (
            if is_positive {
                &mut self.front
            } else {
                &mut self.back
            },
            i,
        )
    }

    /// The element at `index`, if that offset is stored.
    pub fn get(&self, index: isize) -> (r: Option<&T>)
        ensures
            r == if self@.fits(index as int) {
                Some(&self@.at(index as int))
            } else {
                None
            },
    {
        let (v, i) = self.transform_index(index);
        if i < v.len() {
            Some(&v[i])
        } else {
            None
        }
    }

    /// A mutable reference to the element at `index`, if that offset is
    /// stored. Whatever is written through it lands at `index`; nothing else
    /// changes.
    pub fn get_mut(&mut self, index: isize) -> (r: Option<&mut T>)
        ensures
            match r {
                Some(e) => {
                    &&& old(self)@.fits(index as int)
                    &&& *e == old(self)@.at(index as int)
                    &&& final(self)@ == old(self)@.put(index as int, *final(e))
                },
                None => !old(self)@.fits(index as int) && final(self)@ == old(self)@,
            },
    {
        let (v, i) = self.transform_index_mut(index);
        if i < v.len() {
            Some(&mut v[i])
        } else {
            None
        }
    }

    /// Appends at the upper end: the new element gets offset `hi()`.
    pub fn push_front(&mut self, value: T)
        ensures
            final(self)@ == (Sides { back: old(self)@.back, front: old(self)@.front.push(value) }),
    {
        self.front.push(value);
    }

    /// Removes the element with the highest non-negative offset.
    pub fn pop_front(&mut self) -> (r: Option<T>)
        ensures
            old(self)@.front.len() == 0 ==> r is None && final(self)@ == old(self)@,
            old(self)@.front.len() > 0 ==> r == Some(old(self)@.front.last()) && final(self)@ == (
            Sides { back: old(self)@.back, front: old(self)@.front.drop_last() }),
    {
        self.front.pop()
    }

    /// Appends at the lower end: the new element gets offset `lo() - 1`.
    pub fn push_back(&mut self, value: T)
        ensures
            final(self)@ == (Sides { back: old(self)@.back.push(value), front: old(self)@.front }),
    {
        self.back.push(value)
    }

    /// Removes the element with the lowest negative offset.
    pub fn pop_back(&mut self) -> (r: Option<T>)
        ensures
            old(self)@.back.len() == 0 ==> r is None && final(self)@ == old(self)@,
            old(self)@.back.len() > 0 ==> r == Some(old(self)@.back.last()) && final(self)@ == (
            Sides { back: old(self)@.back.drop_last(), front: old(self)@.front }),
    {
        self.back.pop()
    }

    /// Inserts `value` at `index`, moving the elements of that side from
    /// `index` outwards one offset further from the origin.
    pub fn insert(&mut self, index: isize, value: T)
        requires
            side_pos(index as int) <= old(self)@.side(index as int).len(),
        ensures
            final(self)@ == old(self)@.with_side(
                index as int,
                old(self)@.side(index as int).insert(side_pos(index as int), value),
            ),
    {
        let (v, i) = self.transform_index_mut(index);
        v.insert(i, value);
    }

    /// Removes and returns the element at `index`, moving the elements of
    /// that side beyond `index` one offset closer to the origin.
    pub fn remove(&mut self, index: isize) -> (r: T)
        requires
            old(self)@.fits(index as int),
        ensures
            r == old(self)@.at(index as int),
            final(self)@ == old(self)@.with_side(
                index as int,
                old(self)@.side(index as int).remove(side_pos(index as int)),
            ),
    {
        let (v, i) = self.transform_index_mut(index);
        v.remove(i)
    }

    /// Whether `index` is a stored offset.
    pub fn fits(&self, index: isize) -> (r: bool)
        ensures
            r == self@.fits(index as int),
    {
        let (v, i) = self.transform_index(index);
        i < v.len()
    }

    /// Extends the side of `to` at its outer end, with one value made by `f`
    /// for each new element, until it has `side_pos(to)` elements: every
    /// offset between the origin and `to`, but not `to` itself, is then
    /// stored. A side that is long enough stays as it is, and so does the
    /// other side in any case.
    pub fn grow_with(&mut self, to: isize, mut f: impl FnMut() -> T)
        requires
            call_requires(f, ()),
        ensures
            final(self)@.side(-1 - to) == old(self)@.side(-1 - to),
            grown(old(self)@.side(to as int), final(self)@.side(to as int), side_pos(to as int)),
            forall|p: int|
                old(self)@.side(to as int).len() <= p < final(self)@.side(to as int).len()
                    ==> call_ensures(f, (), #[trigger] final(self)@.side(to as int)[p]),
    {
        let ghost before = self@;
        let ghost f0 = f;
        let (v, newlen) = self.transform_index_mut(to);
        while v.len() < newlen
            invariant
                f == f0,
                call_requires(f, ()),
                before.side(to as int).len() <= v@.len(),
                v@.len() <= newlen || v@.len() == before.side(to as int).len(),
                v@.subrange(0, before.side(to as int).len() as int) == before.side(to as int),
                forall|p: int|
                    before.side(to as int).len() <= p < v@.len() ==> call_ensures(
                        f,
                        (),
                        #[trigger] v@[p],
                    ),
            decreases newlen - v.len(),
        {
            let x = f();
            v.push(x);
            assert(v@.subrange(0, before.side(to as int).len() as int) =~= before.side(to as int));
        }
        assert(v@.subrange(0, before.side(to as int).len() as int) =~= before.side(to as int));
    }

    /// The back side as a slice: position `p` holds offset `-p - 1`.
    pub fn back(&self) -> (r: &[T])
        ensures
            r@ == self@.back,
    {
        self.back.as_slice()
    }

    /// The back side: position `p` holds offset `-p - 1`.
    pub fn back_vec(&self) -> (r: &Vec<T>)
        ensures
            r@ == self@.back,
    {
        &self.back
    }

    /// The front side as a slice: position `p` holds offset `p`.
    pub fn front(&self) -> (r: &[T])
        ensures
            r@ == self@.front,
    {
        self.front.as_slice()
    }

    /// The front side: position `p` holds offset `p`.
    pub fn front_vec(&self) -> (r: &Vec<T>)
        ensures
            r@ == self@.front,
    {
        &self.front
    }

    /// The back side as a mutable slice; what the caller leaves in it is the
    /// new back side.
    pub fn back_mut(&mut self) -> (r: &mut [T])
        ensures
            r@ == old(self)@.back,
            final(self)@ == (Sides { back: final(r)@, front: old(self)@.front }),
    {
        self.back.as_mut_slice()
    }

    /// The back side, mutably; what the caller leaves in it is the new back
    /// side.
    pub fn back_vec_mut(&mut self) -> (r: &mut Vec<T>)
        ensures
            r@ == old(self)@.back,
            final(self)@ == (Sides { back: final(r)@, front: old(self)@.front }),
    {
        &mut self.back
    }

    /// The front side as a mutable slice; what the caller leaves in it is the
    /// new front side.
    pub fn front_mut(&mut self) -> (r: &mut [T])
        ensures
            r@ == old(self)@.front,
            final(self)@ == (Sides { back: old(self)@.back, front: final(r)@ }),
    {
        self.front.as_mut_slice()
    }

    /// The front side, mutably; what the caller leaves in it is the new
    /// front side.
    pub fn front_vec_mut(&mut self) -> (r: &mut Vec<T>)
        ensures
            r@ == old(self)@.front,
            final(self)@ == (Sides { back: old(self)@.back, front: final(r)@ }),
    {
        &mut self.front
    }

    /// A traversal in ascending offset order.
    pub fn iter(&self) -> (r: Iter<'_, T>)
        ensures
            r.remaining() == self@.ordered(),
    {
        Iter::new(self)
    }

    /// A traversal in ascending offset order through which each element can
    /// be changed in place.
    pub fn iter_mut(&mut self) -> (r: IterMut<'_, T>)
        ensures
            r.content() == old(self)@,
            r.position() == old(self)@.lo(),
            final(r.target())@ == final(self)@,
    {
        IterMut::new(self)
    }

    /// A traversal in ascending offset order that gives the elements away.
    pub fn into_iter(self) -> (r: IntoIter<T>)
        ensures
            r.remaining() == self@.ordered(),
    {
        IntoIter::new(self)
    }

    /// A mutable reference to the element at the stored offset `index`.
    pub fn index_mut(&mut self, index: isize) -> (r: &mut T)
        requires
            old(self)@.fits(index as int),
        ensures
            *r == old(self)@.at(index as int),
            final(self)@ == old(self)@.put(index as int, *final(r)),
    {
        let (v, i) = self.transform_index_mut(index);
        &mut v[i]
    }
}

/// `after` is `before` extended at its end to at least `len` elements, and
/// not at all if it had that many.
pub open spec fn grown<T>(before: Seq<T>, after: Seq<T>, len: int) -> bool {
    &&& after.len() == if len > before.len() { len } else { before.len() as int }
    &&& after.subrange(0, before.len() as int) == before
}

impl<T: Clone> DoubleVec<T> {
    /// Extends the side of `to` at its outer end with clones of `value`
    /// until it has `side_pos(to)` elements: every offset between the origin
    /// and `to`, but not `to` itself, is then stored. A side that is long
    /// enough stays as it is, and so does the other side in any case.
    pub fn grow(&mut self, to: isize, value: T)
        ensures
            final(self)@.side(-1 - to) == old(self)@.side(-1 - to),
            grown(old(self)@.side(to as int), final(self)@.side(to as int), side_pos(to as int)),
            forall|p: int|
                old(self)@.side(to as int).len() <= p < final(self)@.side(to as int).len()
                    ==> cloned(value, #[trigger] final(self)@.side(to as int)[p]),
    {
        let (v, newlen) = self.transform_index_mut(to);
        let ghost before = v@;
        if newlen >= v.len() {
            v.resize(newlen, value);
        }
        assert(v@.subrange(0, before.len() as int) =~= before);
    }
}

impl<T: Clone> Clone for DoubleVec<T> {
    fn clone(&self) -> (r: Self)
        ensures
            r@.back.len() == self@.back.len(),
            r@.front.len() == self@.front.len(),
            forall|p: int| 0 <= p < self@.back.len() ==> cloned(self@.back[p], #[trigger] r@.back[p]),
            forall|p: int|
                0 <= p < self@.front.len() ==> cloned(self@.front[p], #[trigger] r@.front[p]),
    {
        Self { back: self.back.clone(), front: self.front.clone() }
    }
}

impl<T> std::ops::Index<isize> for DoubleVec<T> {
    type Output = T;

    fn index(&self, index: isize) -> (r: &T)
        ensures
            *r == self@.at(index as int),
    {
        let (v, i) = self.transform_index(index);
        &v[i]
    }
}

impl<T> vstd::std_specs::core::IndexSpecImpl<isize> for DoubleVec<T> {
    open spec fn index_req(&self, index: &isize) -> bool {
        self@.fits(*index as int)
    }
}

/// A traversal of a [`DoubleVec`] in ascending offset order that leaves it
/// untouched.
pub struct Iter<'a, T> {
    back: &'a [T],
    front: &'a [T],
    back_left: usize,
    front_pos: usize,
}

impl<'a, T> Iter<'a, T> {
    /// What is left of each side lies within that side.
    #[verifier::type_invariant]
    spec fn wf(&self) -> bool {
        self.back_left <= self.back@.len() && self.front_pos <= self.front@.len()
    }

    /// The elements still to come, in the order in which they will come.
    pub closed spec fn remaining(&self) -> Seq<T> {
        self.back@.subrange(0, self.back_left as int).reverse() + self.front@.subrange(
            self.front_pos as int,
            self.front@.len() as int,
        )
    }

    /// A traversal of all of `v`.
    pub fn new(v: &'a DoubleVec<T>) -> (r: Self)
        ensures
            r.remaining() == v@.ordered(),
    {
        let back = v.back();
        let front = v.front();
        let r = Iter { back, front, back_left: back.len(), front_pos: 0 };
        assert(back@.subrange(0, back@.len() as int) =~= back@);
        assert(front@.subrange(0, front@.len() as int) =~= front@);
        r
    }

    /// Hands out the next element, if any is left.
    pub fn next(&mut self) -> (r: Option<&'a T>)
        ensures
            old(self).remaining().len() == 0 ==> r is None && final(self).remaining() == old(self).remaining(),
            old(self).remaining().len() > 0 ==> r == Some(&old(self).remaining()[0]) && final(self).remaining() == old(self).remaining().drop_first(),
    {
        proof {
            use_type_invariant(&*self);
        }
        if self.back_left > 0 {
            self.back_left = self.back_left - 1;
            let x = &self.back[self.back_left];
            assert(self.remaining() =~= old(self).remaining().drop_first());
            Some(x)
        } else if self.front_pos < self.front.len() {
            let x = &self.front[self.front_pos];
            self.front_pos = self.front_pos + 1;
            assert(self.remaining() =~= old(self).remaining().drop_first());
            Some(x)
        } else {
            None
        }
    }
}

/// A traversal in ascending offset order that owns the elements and gives
/// each of them away.
pub struct IntoIter<T> {
    back: Vec<T>,
    front_rev: Vec<T>,
}

impl<T> IntoIter<T> {
    /// The elements still to come, in the order in which they will come.
    pub closed spec fn remaining(&self) -> Seq<T> {
        self.back@.reverse() + self.front_rev@.reverse()
    }

    /// A traversal of all of `dv`, which it uses up.
    pub fn new(dv: DoubleVec<T>) -> (r: Self)
        ensures
            r.remaining() == dv@.ordered(),
    {
        let DoubleVec { back, front } = dv;
        let mut front = front;
        let ghost whole = front@;
        let mut front_rev: Vec<T> = Vec::new();
        while front.len() > 0
            invariant
                front@.len() <= whole.len(),
                front@ == whole.subrange(0, front@.len() as int),
                front_rev@.len() + front@.len() == whole.len(),
                front_rev@.reverse() == whole.subrange(front@.len() as int, whole.len() as int),
            decreases front.len(),
        {
            let ghost rev_before = front_rev@;
            let ghost n = front@.len();
            let x = front.pop().unwrap();
            front_rev.push(x);
            assert(front@ =~= whole.subrange(0, front@.len() as int));
            assert(front_rev@.reverse() =~= whole.subrange(
                front@.len() as int,
                whole.len() as int,
            )) by {
                assert(rev_before.reverse() == whole.subrange(n as int, whole.len() as int));
                assert forall|k: int| 0 <= k < front_rev@.len() implies front_rev@.reverse()[k]
                    == whole[front@.len() + k] by {
                    if k > 0 {
                        assert(front_rev@.reverse()[k] == rev_before[rev_before.len() - k]);
                        assert(rev_before.reverse()[k - 1] == rev_before[rev_before.len() - k]);
                    }
                }
            }
        }
        assert(front_rev@.reverse() =~= whole);
        IntoIter { back, front_rev }
    }

    /// Gives away the next element, if any is left.
    pub fn next(&mut self) -> (r: Option<T>)
        ensures
            old(self).remaining().len() == 0 ==> r is None && final(self).remaining() == old(self).remaining(),
            old(self).remaining().len() > 0 ==> r == Some(old(self).remaining()[0]) && final(self).remaining() == old(self).remaining().drop_first(),
    {
        if self.back.len() > 0 {
            let r = self.back.pop();
            assert(self.remaining() =~= old(self).remaining().drop_first());
            r
        } else if self.front_rev.len() > 0 {
            let r = self.front_rev.pop();
            assert(self.remaining() =~= old(self).remaining().drop_first());
            r
        } else {
            None
        }
    }
}

/// A traversal in ascending offset order through which each element can be
/// changed in place. The vector stays borrowed until the traversal is
/// dropped or finished.
pub struct IterMut<'a, T> {
    dv: &'a mut DoubleVec<T>,
    back_left: usize,
    front_pos: usize,
}

impl<'a, T> IterMut<'a, T> {
    /// What is left of each side lies within that side, and nothing of the
    /// front is handed out before all of the back.
    #[verifier::type_invariant]
    spec fn wf(&self) -> bool {
        &&& self.back_left <= self.dv@.back.len()
        &&& self.front_pos <= self.dv@.front.len()
        &&& self.back_left > 0 ==> self.front_pos == 0
    }

    /// The offset of the element that `next` hands out, or `hi()` of the
    /// vector when none is left.
    pub closed spec fn position(&self) -> int {
        if self.back_left > 0 {
            -(self.back_left as int)
        } else {
            self.front_pos as int
        }
    }

    /// The content of the vector as it stands now.
    pub closed spec fn content(&self) -> Sides<T> {
        self.dv@
    }

    /// The borrow of the vector that the traversal holds. What the borrow
    /// leaves behind is what the vector is once the traversal is over.
    pub closed spec fn target(&self) -> &mut DoubleVec<T> {
        self.dv
    }

    /// A traversal of all of `v`.
    pub fn new(v: &'a mut DoubleVec<T>) -> (r: Self)
        ensures
            r.content() == old(v)@,
            r.position() == old(v)@.lo(),
            final(r.target())@ == final(v)@,
    {
        let n = v.back.len();
        IterMut { dv: v, back_left: n, front_pos: 0 }
    }

    /// Hands out the next element, if any is left, for the caller to read
    /// and to change; no other element changes.
    pub fn next(&mut self) -> (r: Option<&mut T>)
        ensures
            match r {
                Some(e) => {
                    &&& old(self).content().fits(old(self).position())
                    &&& *e == old(self).content().at(old(self).position())
                    &&& final(self).content() == old(self).content().put(old(self).position(), *final(e))
                    &&& final(self).position() == old(self).position() + 1
                    &&& final(final(self).target())@ == final(old(self).target())@
                },
                None => {
                    &&& old(self).position() == old(self).content().hi()
                    &&& *final(self) == *old(self)
                },
            },
    {
        proof {
            use_type_invariant(&*self);
        }
        if self.back_left > 0 {
            self.back_left = self.back_left - 1;
            Some(&mut self.dv.back[self.back_left])
        } else if self.front_pos < self.dv.front.len() {
            let i = self.front_pos;
            self.front_pos = i + 1;
            Some(&mut self.dv.front[i])
        } else {
            None
        }
    }

    /// Ends the traversal: the vector keeps the content that the traversal
    /// has reached.
    pub fn finish(self)
        ensures
            final(self.target())@ == self.content(),
    {
    }
}

} // verus!
