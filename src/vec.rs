//! A vector with a fixed capacity.
//!
//! The live elements are kept in order in a buffer reserved for the whole
//! capacity when the vector is made, and never allowed to grow past it. The
//! capacity is known either from the const parameter of [`Vec`] or, for a
//! [`VecView`], from a length recorded at run time. The logic is written
//! once, on [`VecView`]; a [`VecInner`] holds a view whose capacity its
//! [`Storage`] admits and lends it out.
use vstd::prelude::*;

use vstd::std_specs::cmp::PartialEqSpec;
use vstd::string::StringSliceAdditionalSpecFns;

use crate::storage::{OwnedStorage, Storage};

verus! {

/// Relies on std's `From<[T; N]> for Vec<T>`, documented as allocating a
/// vector and moving the array's items into it, in order.
pub assume_specification<T, const N: usize>[ <std::vec::Vec<T> as core::convert::From<[T; N]>>::from ](
    s: [T; N],
) -> (v: std::vec::Vec<T>)
    ensures
        v@ == s@,
;

/// The elements of `s` whose entry in `keep` is `true`, in order.
pub open spec fn filter_by<T>(s: Seq<T>, keep: Seq<bool>) -> Seq<T>
    decreases s.len(),
{
    if s.len() == 0 {
        Seq::empty()
    } else {
        let n = s.len() - 1;
        let rest = filter_by(s.subrange(0, n), keep.subrange(0, n));
        if keep[n] {
            rest.push(s[n])
        } else {
            rest
        }
    }
}

/// Whether `needle` is element by element equal to `s` from position `at`.
pub open spec fn matches_at<T: PartialEq>(s: Seq<T>, at: int, needle: Seq<T>) -> bool {
    &&& 0 <= at
    &&& at + needle.len() <= s.len()
    &&& forall|i: int| 0 <= i < needle.len() ==> #[trigger] needle[i].eq_spec(&s[at + i])
}

/// Exchanges the elements at `i` and `j`.
fn swap_elems<T>(v: &mut std::vec::Vec<T>, i: usize, j: usize)
    requires
        i < j < old(v)@.len(),
    ensures
        final(v)@ == old(v)@.update(i as int, old(v)@[j as int]).update(j as int, old(v)@[i as int]),
{
    let s = v.as_mut_slice();
    let (lo, hi) = s.split_at_mut(j);
    let (_, from_i) = lo.split_at_mut(i);
    let a = from_i.first_mut().unwrap();
    let b = hi.first_mut().unwrap();
    core::mem::swap(a, b);
    assert(final(v)@ =~= old(v)@.update(i as int, old(v)@[j as int]).update(j as int, old(v)@[i as int]));
}

/// A vector whose capacity is only known at run time. Every vector's
/// operations are those of the view it holds.
pub struct VecView<T> {
    /// The live elements, in order.
    buffer: std::vec::Vec<T>,
    /// The number of slots.
    capacity: usize,
}

/// Base of [`Vec`], generic over how the capacity is known: a [`VecView`]
/// whose capacity the storage `S` admits, which [`as_view`](Self::as_view)
/// and [`as_mut_view`](Self::as_mut_view) lend out without copying.
pub struct VecInner<T, S: Storage> {
    view: VecView<T>,
    storage: std::marker::PhantomData<S>,
}

/// A vector with a fixed capacity of `N` elements.
pub type Vec<T, const N: usize> = VecInner<T, OwnedStorage<N>>;

impl<T> View for VecView<T> {
    type V = Seq<T>;

    closed spec fn view(&self) -> Seq<T> {
        self.buffer@
    }
}

impl<T, S: Storage> View for VecInner<T, S> {
    type V = Seq<T>;

    open spec fn view(&self) -> Seq<T> {
        self.spec_view()@
    }
}

impl<T, const N: usize> Vec<T, N> {
    /// Constructs a new, empty vector with a capacity of `N`.
    pub fn new() -> (r: Self)
        ensures
            r.wf(),
            r.spec_capacity() == N,
            r@ == Seq::<T>::empty(),
    {
        VecInner {
            view: VecView { buffer: std::vec::Vec::with_capacity(N), capacity: N },
            storage: std::marker::PhantomData,
        }
    }

    /// Constructs a new vector with a capacity of `N` holding copies of the
    /// elements of `other`; fails if they do not fit.
    pub fn from_slice(other: &[T]) -> (r: Result<Self, ()>) where T: Copy
        ensures
            other@.len() <= N <==> r is Ok,
            r matches Ok(v) ==> v.wf() && v.spec_capacity() == N && v@ == other@,
    {
        let mut v = Self::new();
        match v.extend_from_slice(other) {
            Ok(()) => Ok(v),
            Err(()) => Err(()),
        }
    }

    /// Constructs a new vector with a capacity of `N` holding the elements of
    /// `src`, moved in order, which must fit.
    pub fn from_array<const M: usize>(src: [T; M]) -> (r: Self)
        requires
            M <= N,
        ensures
            r.wf(),
            r.spec_capacity() == N,
            r@ == src@,
    {
        let buffer = std::vec::Vec::from(src);
        VecInner { view: VecView { buffer, capacity: N }, storage: std::marker::PhantomData }
    }

    /// Turns the vector into an iterator that moves its elements out, in
    /// order.
    pub fn into_iter(self) -> (r: IntoIter<T, N>)
        requires
            self.wf(),
        ensures
            r.wf(),
            r@ == self@,
    {
        IntoIter { vec: self }
    }

    /// Returns the maximum number of elements the vector can hold.
    pub fn capacity(&self) -> (r: usize)
        ensures
            r == N,
    {
        N
    }
}

impl<T, const N: usize> Default for Vec<T, N> {
    /// An empty vector.
    fn default() -> (r: Self)
        ensures
            r.wf(),
            r.spec_capacity() == N,
            r@ == Seq::<T>::empty(),
    {
        Self::new()
    }
}

impl<T> VecView<T> {
    /// The number of slots.
    pub closed spec fn spec_capacity(&self) -> nat {
        self.capacity as nat
    }

    /// The live elements fit in the capacity.
    pub closed spec fn wf(&self) -> bool {
        self.buffer@.len() <= self.capacity
    }

    /// What a well-formed vector guarantees of its size: it holds no more
    /// elements than its capacity.
    pub proof fn lemma_bounds(&self)
        requires
            self.wf(),
        ensures
            self@.len() <= self.spec_capacity(),
    {
    }

    /// Returns the maximum number of elements the vector can hold.
    pub fn storage_capacity(&self) -> (r: usize)
        requires
            self.wf(),
        ensures
            r == self.spec_capacity(),
    {
        self.capacity
    }

    /// Returns the number of elements in the vector.
    pub fn len(&self) -> (r: usize)
        ensures
            r == self@.len(),
    {
        self.buffer.len()
    }

    /// Extracts a slice containing the entire vector.
    pub fn as_slice(&self) -> (r: &[T])
        ensures
            r@ == self@,
    {
        self.buffer.as_slice()
    }

    /// Extracts a mutable slice containing the entire vector.
    pub fn as_mut_slice(&mut self) -> (r: &mut [T])
        requires
            old(self).wf(),
        ensures
            r@ == old(self)@,
            final(self)@ == final(r)@,
            final(self).spec_capacity() == old(self).spec_capacity(),
            final(r)@.len() == r@.len() ==> final(self).wf(),
    {
        self.buffer.as_mut_slice()
    }

    /// Returns true if the vector is full.
    pub fn is_full(&self) -> (r: bool)
        requires
            self.wf(),
        ensures
            r == (self@.len() == self.spec_capacity()),
    {
        self.buffer.len() == self.storage_capacity()
    }

    /// Returns true if the vector is empty.
    pub fn is_empty(&self) -> (r: bool)
        ensures
            r == (self@.len() == 0),
    {
        self.buffer.len() == 0
    }

    /// Clones and appends all elements of `other`; fails, changing nothing,
    /// if they do not fit.
    pub fn extend_from_slice(&mut self, other: &[T]) -> (r: Result<(), ()>) where T: Copy
        requires
            old(self).wf(),
        ensures
            final(self).wf(),
            final(self).spec_capacity() == old(self).spec_capacity(),
            old(self)@.len() + other@.len() <= old(self).spec_capacity() <==> r is Ok,
            r is Ok ==> final(self)@ == old(self)@ + other@,
            r is Err ==> final(self)@ == old(self)@,
    {
        if other.len() > self.storage_capacity() - self.buffer.len() {
            return Err(());
        }
        let mut i: usize = 0;
        while i < other.len()
            invariant
                self.wf(),
                self.spec_capacity() == old(self).spec_capacity(),
                i <= other@.len(),
                old(self)@.len() + other@.len() <= self.spec_capacity(),
                self@ == old(self)@ + other@.subrange(0, i as int),
            decreases other@.len() - i,
        {
            self.push_unchecked(other[i]);
            i += 1;
            assert(self@ =~= old(self)@ + other@.subrange(0, i as int));
        }
        assert(other@.subrange(0, other@.len() as int) =~= other@);
        Ok(())
    }

    /// Moves all elements of `items` to the back of the vector, in order.
    /// They must fit.
    pub fn extend(&mut self, items: std::vec::Vec<T>)
        requires
            old(self).wf(),
            old(self)@.len() + items@.len() <= old(self).spec_capacity(),
        ensures
            final(self).wf(),
            final(self).spec_capacity() == old(self).spec_capacity(),
            final(self)@ == old(self)@ + items@,
    {
        let ghost all = items@;
        let mut rest = items;
        let mut moved: usize = 0;
        while rest.len() > 0
            invariant
                self.wf(),
                self.spec_capacity() == old(self).spec_capacity(),
                old(self)@.len() + all.len() <= self.spec_capacity(),
                moved <= all.len(),
                rest@ == all.subrange(moved as int, all.len() as int),
                self@ == old(self)@ + all.subrange(0, moved as int),
            decreases rest@.len(),
        {
            let x = rest.remove(0);
            self.push_unchecked(x);
            moved += 1;
            assert(self@ =~= old(self)@ + all.subrange(0, moved as int));
            assert(rest@ =~= all.subrange(moved as int, all.len() as int));
        }
        assert(all.subrange(0, all.len() as int) =~= all);
    }

    /// Shortens the vector to its first `len` elements, dropping the rest;
    /// does nothing if `len` is greater than the current length.
    pub fn truncate(&mut self, len: usize)
        requires
            old(self).wf(),
        ensures
            final(self).wf(),
            final(self).spec_capacity() == old(self).spec_capacity(),
            len > old(self)@.len() ==> final(self)@ == old(self)@,
            len <= old(self)@.len() ==> final(self)@ == old(self)@.subrange(0, len as int),
    {
        if len > self.buffer.len() {
            return ;
        }
        self.buffer.truncate(len);
    }

    /// Clears the vector, dropping all its elements.
    pub fn clear(&mut self)
        requires
            old(self).wf(),
        ensures
            final(self).wf(),
            final(self).spec_capacity() == old(self).spec_capacity(),
            final(self)@ == Seq::<T>::empty(),
    {
        self.truncate(0);
        assert(self@ =~= Seq::<T>::empty());
    }

    /// Resizes the vector to `new_len` elements: extends it with copies of
    /// `value`, or truncates it. Fails, changing nothing, if `new_len` is
    /// greater than the capacity.
    pub fn resize(&mut self, new_len: usize, value: T) -> (r: Result<(), ()>) where T: Copy
        requires
            old(self).wf(),
        ensures
            final(self).wf(),
            final(self).spec_capacity() == old(self).spec_capacity(),
            new_len <= old(self).spec_capacity() <==> r is Ok,
            r is Err ==> final(self)@ == old(self)@,
            r is Ok ==> final(self)@.len() == new_len,
            r is Ok ==> forall|i: int|
                0 <= i < new_len ==> #[trigger] final(self)@[i] == if i < old(self)@.len() {
                    old(self)@[i]
                } else {
                    value
                },
    {
        if new_len > self.storage_capacity() {
            return Err(());
        }
        if new_len > self.buffer.len() {
            while self.buffer.len() < new_len
                invariant
                    self.wf(),
                    self.spec_capacity() == old(self).spec_capacity(),
                    new_len <= self.spec_capacity(),
                    old(self)@.len() <= self@.len() <= new_len,
                    forall|i: int|
                        0 <= i < self@.len() ==> #[trigger] self@[i] == if i < old(self)@.len() {
                            old(self)@[i]
                        } else {
                            value
                        },
                decreases new_len - self@.len(),
            {
                self.push_unchecked(value);
            }
        } else {
            self.truncate(new_len);
        }
        Ok(())
    }

    /// Resizes the vector to `new_len` elements: extends it with copies of
    /// `T::default()`, or truncates it. Fails, changing nothing, if
    /// `new_len` is greater than the capacity.
    pub fn resize_default(&mut self, new_len: usize) -> (r: Result<(), ()>) where T: Copy + Default
        requires
            old(self).wf(),
        ensures
            final(self).wf(),
            final(self).spec_capacity() == old(self).spec_capacity(),
            new_len <= old(self).spec_capacity() <==> r is Ok,
            r is Err ==> final(self)@ == old(self)@,
            r is Ok ==> final(self)@.len() == new_len,
            r is Ok ==> final(self)@.subrange(0, if new_len < old(self)@.len() { new_len as int } else { old(self)@.len() as int })
                == old(self)@.subrange(0, if new_len < old(self)@.len() { new_len as int } else { old(self)@.len() as int }),
            r is Ok ==> forall|i: int, j: int|
                old(self)@.len() <= i < new_len && old(self)@.len() <= j < new_len
                    ==> #[trigger] final(self)@[i] == #[trigger] final(self)@[j],
    {
        let r = self.resize(new_len, T::default());
        assert(r is Ok ==> final(self)@.subrange(0, if new_len < old(self)@.len() { new_len as int } else { old(self)@.len() as int })
            =~= old(self)@.subrange(0, if new_len < old(self)@.len() { new_len as int } else { old(self)@.len() as int }));
        r
    }

    /// Removes the element at `index`, which must be in bounds, and returns
    /// it; the last element takes its place.
    pub fn swap_remove_unchecked(&mut self, index: usize) -> (r: T)
        requires
            old(self).wf(),
            index < old(self)@.len(),
        ensures
            final(self).wf(),
            final(self).spec_capacity() == old(self).spec_capacity(),
            r == old(self)@[index as int],
            final(self)@ == old(self)@.update(index as int, old(self)@.last()).drop_last(),
    {
        self.buffer.swap_remove(index)
    }

    /// Removes the element at `index`, which must be in bounds, and returns
    /// it; the last element takes its place.
    pub fn swap_remove(&mut self, index: usize) -> (r: T)
        requires
            old(self).wf(),
            index < old(self)@.len(),
        ensures
            final(self).wf(),
            final(self).spec_capacity() == old(self).spec_capacity(),
            r == old(self)@[index as int],
            final(self)@ == old(self)@.update(index as int, old(self)@.last()).drop_last(),
    {
        self.swap_remove_unchecked(index)
    }

    /// Inserts `element` at `index`, which must be at most the length,
    /// shifting the elements after it to the right; hands the element back
    /// if the vector is full.
    pub fn insert(&mut self, index: usize, element: T) -> (r: Result<(), T>)
        requires
            old(self).wf(),
            index <= old(self)@.len(),
        ensures
            final(self).wf(),
            final(self).spec_capacity() == old(self).spec_capacity(),
            old(self)@.len() == old(self).spec_capacity() ==> r == Err::<(), T>(element) && final(self)@ == old(self)@,
            old(self)@.len() < old(self).spec_capacity() ==> r is Ok && final(self)@ == old(self)@.insert(index as int, element),
    {
        if self.is_full() {
            return Err(element);
        }
        self.buffer.insert(index, element);
        Ok(())
    }

    /// Removes the element at `index`, which must be in bounds, shifting the
    /// elements after it to the left, and returns it.
    pub fn remove(&mut self, index: usize) -> (r: T)
        requires
            old(self).wf(),
            index < old(self)@.len(),
        ensures
            final(self).wf(),
            final(self).spec_capacity() == old(self).spec_capacity(),
            r == old(self)@[index as int],
            final(self)@ == old(self)@.remove(index as int),
    {
        self.buffer.remove(index)
    }

    /// Returns `true` if `needle` is a prefix of the vector.
    pub fn starts_with(&self, needle: &[T]) -> (r: bool) where T: PartialEq
        ensures
            T::obeys_eq_spec() ==> r == matches_at(self@, 0, needle@),
    {
        let n = needle.len();
        if n > self.buffer.len() {
            return false;
        }
        self.equal_at(0, needle)
    }

    /// Returns `true` if `needle` is a suffix of the vector.
    pub fn ends_with(&self, needle: &[T]) -> (r: bool) where T: PartialEq
        ensures
            T::obeys_eq_spec() ==> r == matches_at(self@, self@.len() - needle@.len(), needle@),
    {
        let (v, n) = (self.buffer.len(), needle.len());
        if n > v {
            return false;
        }
        self.equal_at(v - n, needle)
    }

    /// Whether `needle` is element by element equal to the vector from `at`.
    fn equal_at(&self, at: usize, needle: &[T]) -> (r: bool) where T: PartialEq
        requires
            at + needle@.len() <= self@.len(),
        ensures
            T::obeys_eq_spec() ==> r == matches_at(self@, at as int, needle@),
    {
        let total = self.buffer.len();
        let mut i: usize = 0;
        while i < needle.len()
            invariant
                self@.len() == total,
                at + needle@.len() <= self@.len(),
                i <= needle@.len(),
                T::obeys_eq_spec() ==> forall|j: int|
                    0 <= j < i ==> #[trigger] needle@[j].eq_spec(&self@[at + j]),
            decreases needle@.len() - i,
        {
            if !(needle[i] == self.buffer[at + i]) {
                return false;
            }
            i += 1;
        }
        true
    }

    /// Keeps only the elements for which `f` returns `true`, dropping the
    /// others; visits every element once, in order, and keeps the order of
    /// those that stay.
    ///
    /// The pass counts the elements processed so far and how many of them
    /// were deleted. A kept element moves down into the first hole left by
    /// the deleted ones; the deleted ones end up past the kept ones and are
    /// dropped when the vector is cut to its new length.
    pub fn retain<F: Fn(&T) -> bool>(&mut self, f: F)
        requires
            old(self).wf(),
            forall|x: &T| #[trigger] f.requires((x,)),
        ensures
            final(self).wf(),
            final(self).spec_capacity() == old(self).spec_capacity(),
            exists|keep: Seq<bool>|
                {
                    &&& keep.len() == old(self)@.len()
                    &&& forall|i: int|
                        0 <= i < keep.len() ==> #[trigger] f.ensures((&old(self)@[i],), keep[i])
                    &&& final(self)@ == filter_by(old(self)@, keep)
                },
    {
        let original_len = self.buffer.len();
        let ghost start = self.buffer@;
        let ghost mut keep: Seq<bool> = Seq::empty();
        let mut processed: usize = 0;
        let mut deleted: usize = 0;
        while processed < original_len
            invariant
                self.wf(),
                self.spec_capacity() == old(self).spec_capacity(),
                start == old(self)@,
                original_len == start.len(),
                self.buffer@.len() == original_len,
                deleted <= processed <= original_len,
                keep.len() == processed,
                forall|x: &T| #[trigger] f.requires((x,)),
                forall|i: int| 0 <= i < processed ==> #[trigger] f.ensures((&start[i],), keep[i]),
                self.buffer@.subrange(0, processed - deleted) == filter_by(
                    start.subrange(0, processed as int),
                    keep,
                ),
                forall|i: int| processed <= i < original_len ==> #[trigger] self.buffer@[i] == start[i],
            decreases original_len - processed,
        {
            let ghost before = self.buffer@;
            let ghost keep_before = keep;
            let k = f(&self.buffer[processed]);
            proof {
                keep = keep.push(k);
            }
            if k {
                if deleted > 0 {
                    swap_elems(&mut self.buffer, processed - deleted, processed);
                }
            } else {
                deleted += 1;
            }
            processed += 1;
            proof {
                let done = start.subrange(0, processed as int);
                assert(done.subrange(0, processed - 1) =~= start.subrange(0, processed - 1));
                assert(keep.subrange(0, processed - 1) =~= keep_before);
                assert(done[processed - 1] == start[processed - 1]);
                if k {
                    assert(self.buffer@.subrange(0, processed - deleted) =~= before.subrange(
                        0,
                        processed - 1 - deleted,
                    ).push(start[processed - 1]));
                } else {
                    assert(self.buffer@.subrange(0, processed - deleted) =~= before.subrange(
                        0,
                        processed - deleted,
                    ));
                }
            }
        }
        self.buffer.truncate(original_len - deleted);
        proof {
            assert(start.subrange(0, original_len as int) =~= start);
        }
    }

    /// Removes the elements at positions `range` and returns them in order;
    /// the elements after the range move down to close the gap.
    pub fn drain(&mut self, range: std::ops::Range<usize>) -> (r: std::vec::Vec<T>)
        requires
            old(self).wf(),
            range.start <= range.end <= old(self)@.len(),
        ensures
            final(self).wf(),
            final(self).spec_capacity() == old(self).spec_capacity(),
            r@ == old(self)@.subrange(range.start as int, range.end as int),
            final(self)@ == old(self)@.subrange(0, range.start as int) + old(self)@.subrange(
                range.end as int,
                old(self)@.len() as int,
            ),
    {
        let start = range.start;
        let end = range.end;
        let mut tail = self.buffer.split_off(end);
        let drained = self.buffer.split_off(start);
        self.buffer.append(&mut tail);
        proof {
            assert(drained@ =~= old(self)@.subrange(start as int, end as int));
        }
        drained
    }

    /// Appends an `item` to the back of the vector, which must not be full.
    pub fn push_unchecked(&mut self, item: T)
        requires
            old(self).wf(),
            old(self)@.len() < old(self).spec_capacity(),
        ensures
            final(self).wf(),
            final(self).spec_capacity() == old(self).spec_capacity(),
            final(self)@ == old(self)@.push(item),
    {
        self.buffer.push(item);
    }

    /// Removes the last element, which must exist, and returns it.
    pub fn pop_unchecked(&mut self) -> (r: T)
        requires
            old(self).wf(),
            old(self)@.len() > 0,
        ensures
            final(self).wf(),
            final(self).spec_capacity() == old(self).spec_capacity(),
            r == old(self)@.last(),
            final(self)@ == old(self)@.drop_last(),
    {
        self.buffer.pop().unwrap()
    }

    /// Appends an `item` to the back of the vector; hands the item back if
    /// the vector is full.
    pub fn push(&mut self, item: T) -> (r: Result<(), T>)
        requires
            old(self).wf(),
        ensures
            final(self).wf(),
            final(self).spec_capacity() == old(self).spec_capacity(),
            old(self)@.len() == old(self).spec_capacity() ==> r == Err::<(), T>(item) && final(self)@ == old(self)@,
            old(self)@.len() < old(self).spec_capacity() ==> r is Ok && final(self)@ == old(self)@.push(item),
    {
        if self.buffer.len() < self.storage_capacity() {
            self.push_unchecked(item);
            Ok(())
        } else {
            Err(item)
        }
    }

    /// Removes the last element and returns it, or `None` if the vector is
    /// empty.
    pub fn pop(&mut self) -> (r: Option<T>)
        requires
            old(self).wf(),
        ensures
            final(self).wf(),
            final(self).spec_capacity() == old(self).spec_capacity(),
            old(self)@.len() == 0 ==> r is None && final(self)@ == old(self)@,
            old(self)@.len() > 0 ==> r == Some(old(self)@.last()) && final(self)@ == old(self)@.drop_last(),
    {
        if self.buffer.len() != 0 {
            Some(self.pop_unchecked())
        } else {
            None
        }
    }
}

impl VecView<u8> {
    /// Appends the UTF-8 bytes of `s`; fails, changing nothing, if they do
    /// not fit.
    pub fn write_str(&mut self, s: &str) -> (r: Result<(), ()>)
        requires
            old(self).wf(),
        ensures
            final(self).wf(),
            final(self).spec_capacity() == old(self).spec_capacity(),
            old(self)@.len() + s.spec_bytes().len() <= old(self).spec_capacity() <==> r is Ok,
            r is Ok ==> final(self)@ == old(self)@ + s.spec_bytes(),
            r is Err ==> final(self)@ == old(self)@,
    {
        self.extend_from_slice(s.as_bytes())
    }
}

impl<T, S: Storage> VecInner<T, S> {
    /// The view this vector holds.
    pub closed spec fn spec_view(&self) -> VecView<T> {
        self.view
    }

    /// The number of slots.
    pub open spec fn spec_capacity(&self) -> nat {
        self.spec_view().spec_capacity()
    }

    /// The view is well formed, and the storage admits its capacity.
    pub open spec fn wf(&self) -> bool {
        self.spec_view().wf() && S::admits(self.spec_capacity())
    }

    /// What a well-formed vector guarantees of its size: it holds no more
    /// elements than its capacity, and that capacity is one its storage
    /// admits.
    pub proof fn lemma_bounds(&self)
        requires
            self.wf(),
        ensures
            self@.len() <= self.spec_capacity(),
            S::admits(self.spec_capacity()),
    {
        self.spec_view().lemma_bounds();
    }

    /// Lends out the vector as a [`VecView`] over the same buffer, which has
    /// forgotten how its capacity was known.
    pub fn as_view(&self) -> (r: &VecView<T>)
        ensures
            *r == self.spec_view(),
    {
        &self.view
    }

    /// Lends out the vector mutably as a [`VecView`] over the same buffer;
    /// the vector stays well formed as long as the view keeps its capacity.
    pub fn as_mut_view(&mut self) -> (r: &mut VecView<T>)
        ensures
            *r == old(self).spec_view(),
            final(self).spec_view() == *final(r),
    {
        &mut self.view
    }

    /// Returns the maximum number of elements the vector can hold.
    pub fn storage_capacity(&self) -> (r: usize)
        requires
            self.wf(),
        ensures
            r == self.spec_capacity(),
    {
        S::buffer_len(self.view.capacity)
    }

    /// Returns the number of elements in the vector.
    pub fn len(&self) -> (r: usize)
        ensures
            r == self@.len(),
    {
        self.as_view().len()
    }

    /// Extracts a slice containing the entire vector.
    pub fn as_slice(&self) -> (r: &[T])
        ensures
            r@ == self@,
    {
        self.as_view().as_slice()
    }

    /// Extracts a mutable slice containing the entire vector.
    pub fn as_mut_slice(&mut self) -> (r: &mut [T])
        requires
            old(self).wf(),
        ensures
            r@ == old(self)@,
            final(self)@ == final(r)@,
            final(self).spec_capacity() == old(self).spec_capacity(),
            final(r)@.len() == r@.len() ==> final(self).wf(),
    {
        self.as_mut_view().as_mut_slice()
    }

    /// Returns true if the vector is full.
    pub fn is_full(&self) -> (r: bool)
        requires
            self.wf(),
        ensures
            r == (self@.len() == self.spec_capacity()),
    {
        self.as_view().is_full()
    }

    /// Returns true if the vector is empty.
    pub fn is_empty(&self) -> (r: bool)
        ensures
            r == (self@.len() == 0),
    {
        self.as_view().is_empty()
    }

    /// Clones and appends all elements of `other`; fails, changing nothing,
    /// if they do not fit.
    pub fn extend_from_slice(&mut self, other: &[T]) -> (r: Result<(), ()>) where T: Copy
        requires
            old(self).wf(),
        ensures
            final(self).wf(),
            final(self).spec_capacity() == old(self).spec_capacity(),
            old(self)@.len() + other@.len() <= old(self).spec_capacity() <==> r is Ok,
            r is Ok ==> final(self)@ == old(self)@ + other@,
            r is Err ==> final(self)@ == old(self)@,
    {
        self.as_mut_view().extend_from_slice(other)
    }

    /// Moves all elements of `items` to the back of the vector, in order.
    /// They must fit.
    pub fn extend(&mut self, items: std::vec::Vec<T>)
        requires
            old(self).wf(),
            old(self)@.len() + items@.len() <= old(self).spec_capacity(),
        ensures
            final(self).wf(),
            final(self).spec_capacity() == old(self).spec_capacity(),
            final(self)@ == old(self)@ + items@,
    {
        self.as_mut_view().extend(items)
    }

    /// Shortens the vector to its first `len` elements, dropping the rest;
    /// does nothing if `len` is greater than the current length.
    pub fn truncate(&mut self, len: usize)
        requires
            old(self).wf(),
        ensures
            final(self).wf(),
            final(self).spec_capacity() == old(self).spec_capacity(),
            len > old(self)@.len() ==> final(self)@ == old(self)@,
            len <= old(self)@.len() ==> final(self)@ == old(self)@.subrange(0, len as int),
    {
        self.as_mut_view().truncate(len)
    }

    /// Clears the vector, dropping all its elements.
    pub fn clear(&mut self)
        requires
            old(self).wf(),
        ensures
            final(self).wf(),
            final(self).spec_capacity() == old(self).spec_capacity(),
            final(self)@ == Seq::<T>::empty(),
    {
        self.as_mut_view().clear()
    }

    /// Resizes the vector to `new_len` elements: extends it with copies of
    /// `value`, or truncates it. Fails, changing nothing, if `new_len` is
    /// greater than the capacity.
    pub fn resize(&mut self, new_len: usize, value: T) -> (r: Result<(), ()>) where T: Copy
        requires
            old(self).wf(),
        ensures
            final(self).wf(),
            final(self).spec_capacity() == old(self).spec_capacity(),
            new_len <= old(self).spec_capacity() <==> r is Ok,
            r is Err ==> final(self)@ == old(self)@,
            r is Ok ==> final(self)@.len() == new_len,
            r is Ok ==> forall|i: int|
                0 <= i < new_len ==> #[trigger] final(self)@[i] == if i < old(self)@.len() {
                    old(self)@[i]
                } else {
                    value
                },
    {
        self.as_mut_view().resize(new_len, value)
    }

    /// Resizes the vector to `new_len` elements: extends it with copies of
    /// `T::default()`, or truncates it. Fails, changing nothing, if
    /// `new_len` is greater than the capacity.
    pub fn resize_default(&mut self, new_len: usize) -> (r: Result<(), ()>) where T: Copy + Default
        requires
            old(self).wf(),
        ensures
            final(self).wf(),
            final(self).spec_capacity() == old(self).spec_capacity(),
            new_len <= old(self).spec_capacity() <==> r is Ok,
            r is Err ==> final(self)@ == old(self)@,
            r is Ok ==> final(self)@.len() == new_len,
            r is Ok ==> final(self)@.subrange(0, if new_len < old(self)@.len() { new_len as int } else { old(self)@.len() as int })
                == old(self)@.subrange(0, if new_len < old(self)@.len() { new_len as int } else { old(self)@.len() as int }),
            r is Ok ==> forall|i: int, j: int|
                old(self)@.len() <= i < new_len && old(self)@.len() <= j < new_len
                    ==> #[trigger] final(self)@[i] == #[trigger] final(self)@[j],
    {
        self.as_mut_view().resize_default(new_len)
    }

    /// Removes the element at `index`, which must be in bounds, and returns
    /// it; the last element takes its place.
    pub fn swap_remove_unchecked(&mut self, index: usize) -> (r: T)
        requires
            old(self).wf(),
            index < old(self)@.len(),
        ensures
            final(self).wf(),
            final(self).spec_capacity() == old(self).spec_capacity(),
            r == old(self)@[index as int],
            final(self)@ == old(self)@.update(index as int, old(self)@.last()).drop_last(),
    {
        self.as_mut_view().swap_remove_unchecked(index)
    }

    /// Removes the element at `index`, which must be in bounds, and returns
    /// it; the last element takes its place.
    pub fn swap_remove(&mut self, index: usize) -> (r: T)
        requires
            old(self).wf(),
            index < old(self)@.len(),
        ensures
            final(self).wf(),
            final(self).spec_capacity() == old(self).spec_capacity(),
            r == old(self)@[index as int],
            final(self)@ == old(self)@.update(index as int, old(self)@.last()).drop_last(),
    {
        self.as_mut_view().swap_remove(index)
    }

    /// Inserts `element` at `index`, which must be at most the length,
    /// shifting the elements after it to the right; hands the element back
    /// if the vector is full.
    pub fn insert(&mut self, index: usize, element: T) -> (r: Result<(), T>)
        requires
            old(self).wf(),
            index <= old(self)@.len(),
        ensures
            final(self).wf(),
            final(self).spec_capacity() == old(self).spec_capacity(),
            old(self)@.len() == old(self).spec_capacity() ==> r == Err::<(), T>(element) && final(self)@ == old(self)@,
            old(self)@.len() < old(self).spec_capacity() ==> r is Ok && final(self)@ == old(self)@.insert(index as int, element),
    {
        self.as_mut_view().insert(index, element)
    }

    /// Removes the element at `index`, which must be in bounds, shifting the
    /// elements after it to the left, and returns it.
    pub fn remove(&mut self, index: usize) -> (r: T)
        requires
            old(self).wf(),
            index < old(self)@.len(),
        ensures
            final(self).wf(),
            final(self).spec_capacity() == old(self).spec_capacity(),
            r == old(self)@[index as int],
            final(self)@ == old(self)@.remove(index as int),
    {
        self.as_mut_view().remove(index)
    }

    /// Returns `true` if `needle` is a prefix of the vector.
    pub fn starts_with(&self, needle: &[T]) -> (r: bool) where T: PartialEq
        ensures
            T::obeys_eq_spec() ==> r == matches_at(self@, 0, needle@),
    {
        self.as_view().starts_with(needle)
    }

    /// Returns `true` if `needle` is a suffix of the vector.
    pub fn ends_with(&self, needle: &[T]) -> (r: bool) where T: PartialEq
        ensures
            T::obeys_eq_spec() ==> r == matches_at(self@, self@.len() - needle@.len(), needle@),
    {
        self.as_view().ends_with(needle)
    }

    /// Keeps only the elements for which `f` returns `true`, dropping the
    /// others; see [`VecView::retain`].
    pub fn retain<F: Fn(&T) -> bool>(&mut self, f: F)
        requires
            old(self).wf(),
            forall|x: &T| #[trigger] f.requires((x,)),
        ensures
            final(self).wf(),
            final(self).spec_capacity() == old(self).spec_capacity(),
            exists|keep: Seq<bool>|
                {
                    &&& keep.len() == old(self)@.len()
                    &&& forall|i: int|
                        0 <= i < keep.len() ==> #[trigger] f.ensures((&old(self)@[i],), keep[i])
                    &&& final(self)@ == filter_by(old(self)@, keep)
                },
    {
        self.as_mut_view().retain(f)
    }

    /// Removes the elements at positions `range` and returns them in order;
    /// the elements after the range move down to close the gap.
    pub fn drain(&mut self, range: std::ops::Range<usize>) -> (r: std::vec::Vec<T>)
        requires
            old(self).wf(),
            range.start <= range.end <= old(self)@.len(),
        ensures
            final(self).wf(),
            final(self).spec_capacity() == old(self).spec_capacity(),
            r@ == old(self)@.subrange(range.start as int, range.end as int),
            final(self)@ == old(self)@.subrange(0, range.start as int) + old(self)@.subrange(
                range.end as int,
                old(self)@.len() as int,
            ),
    {
        self.as_mut_view().drain(range)
    }

    /// Appends an `item` to the back of the vector, which must not be full.
    pub fn push_unchecked(&mut self, item: T)
        requires
            old(self).wf(),
            old(self)@.len() < old(self).spec_capacity(),
        ensures
            final(self).wf(),
            final(self).spec_capacity() == old(self).spec_capacity(),
            final(self)@ == old(self)@.push(item),
    {
        self.as_mut_view().push_unchecked(item)
    }

    /// Removes the last element, which must exist, and returns it.
    pub fn pop_unchecked(&mut self) -> (r: T)
        requires
            old(self).wf(),
            old(self)@.len() > 0,
        ensures
            final(self).wf(),
            final(self).spec_capacity() == old(self).spec_capacity(),
            r == old(self)@.last(),
            final(self)@ == old(self)@.drop_last(),
    {
        self.as_mut_view().pop_unchecked()
    }

    /// Appends an `item` to the back of the vector; hands the item back if
    /// the vector is full.
    pub fn push(&mut self, item: T) -> (r: Result<(), T>)
        requires
            old(self).wf(),
        ensures
            final(self).wf(),
            final(self).spec_capacity() == old(self).spec_capacity(),
            old(self)@.len() == old(self).spec_capacity() ==> r == Err::<(), T>(item) && final(self)@ == old(self)@,
            old(self)@.len() < old(self).spec_capacity() ==> r is Ok && final(self)@ == old(self)@.push(item),
    {
        self.as_mut_view().push(item)
    }

    /// Removes the last element and returns it, or `None` if the vector is
    /// empty.
    pub fn pop(&mut self) -> (r: Option<T>)
        requires
            old(self).wf(),
        ensures
            final(self).wf(),
            final(self).spec_capacity() == old(self).spec_capacity(),
            old(self)@.len() == 0 ==> r is None && final(self)@ == old(self)@,
            old(self)@.len() > 0 ==> r == Some(old(self)@.last()) && final(self)@ == old(self)@.drop_last(),
    {
        self.as_mut_view().pop()
    }
}

impl<S: Storage> VecInner<u8, S> {
    /// Appends the UTF-8 bytes of `s`; fails, changing nothing, if they do
    /// not fit.
    pub fn write_str(&mut self, s: &str) -> (r: Result<(), ()>)
        requires
            old(self).wf(),
        ensures
            final(self).wf(),
            final(self).spec_capacity() == old(self).spec_capacity(),
            old(self)@.len() + s.spec_bytes().len() <= old(self).spec_capacity() <==> r is Ok,
            r is Ok ==> final(self)@ == old(self)@ + s.spec_bytes(),
            r is Err ==> final(self)@ == old(self)@,
    {
        self.as_mut_view().write_str(s)
    }
}

/// An iterator that moves the elements out of a [`Vec`], in order.
pub struct IntoIter<T, const N: usize> {
    vec: Vec<T, N>,
}

impl<T, const N: usize> View for IntoIter<T, N> {
    type V = Seq<T>;

    /// The elements not yet yielded, in order.
    closed spec fn view(&self) -> Seq<T> {
        self.vec@
    }
}

impl<T, const N: usize> IntoIter<T, N> {
    pub closed spec fn wf(&self) -> bool {
        self.vec.wf()
    }

    /// Moves out the next element, or returns `None` when all have been.
    pub fn next(&mut self) -> (r: Option<T>)
        requires
            old(self).wf(),
        ensures
            final(self).wf(),
            old(self)@.len() == 0 ==> r is None && final(self)@ == old(self)@,
            old(self)@.len() > 0 ==> r == Some(old(self)@[0]) && final(self)@ == old(self)@.subrange(1, old(self)@.len() as int),
    {
        if self.vec.is_empty() {
            None
        } else {
            Some(self.vec.remove(0))
        }
    }
}

/// Retaining with a predicate leaves exactly the elements that satisfy it,
/// in their original order: when every decision `keep[i]` is the
/// predicate's verdict on the `i`-th element, the outcome is that sequence
/// filtered by the predicate, and its length is the number of elements that
/// satisfy it.
pub proof fn lemma_retain_is_filter<T>(s: Seq<T>, keep: Seq<bool>, pred: spec_fn(T) -> bool)
    requires
        keep.len() == s.len(),
        forall|i: int| 0 <= i < s.len() ==> #[trigger] keep[i] == pred(s[i]),
    ensures
        filter_by(s, keep) == s.filter(pred),
        filter_by(s, keep).len() == s.filter(pred).len(),
    decreases s.len(),
{
    reveal(Seq::filter);
    if s.len() == 0 {
        assert(filter_by(s, keep) =~= s.filter(pred));
    } else {
        let n = s.len() - 1;
        let front = s.subrange(0, n);
        let kf = keep.subrange(0, n);
        assert(front =~= s.drop_last());
        assert forall|i: int| 0 <= i < front.len() implies #[trigger] kf[i] == pred(front[i]) by {
            assert(kf[i] == keep[i]);
            assert(front[i] == s[i]);
        }
        lemma_retain_is_filter(front, kf, pred);
        assert(keep[n] == pred(s[n]));
        assert(s.last() == s[n]);
    }
}

/// A vector with room for at least one element is never both empty and
/// full.
pub proof fn lemma_empty_full_exclusive<T, S: Storage>(v: VecInner<T, S>)
    requires
        v.wf(),
        v.spec_capacity() > 0,
    ensures
        !(v@.len() == 0 && v@.len() == v.spec_capacity()),
{
}

} // verus!
