//! A fixed-capacity double-ended queue over a ring buffer.
//!
//! The buffer is a block of slots, each either holding a live element
//! (`Some`) or nothing (`None`). The live slots are exactly those reached by
//! walking from `front` towards `back`, wrapping at the end of the buffer;
//! `full` tells an entirely occupied buffer from an empty one, both of which
//! have `front == back`.
//!
//! Since a slot is an `Option<T>` rather than a `T`, the runs of live slots
//! cannot be lent out as `&[T]`; [`DequeView::as_slices`] and
//! [`DequeView::make_contiguous`] hand out vectors of references to their
//! elements instead.
use vstd::prelude::*;

use crate::cells::{move_disjoint, rotate_left_cells, shift_down, shift_up};

verus! {

/// The ring buffer behind every deque; see [`DequeView`] and [`Deque`].
#[derive(Clone)]
pub struct DequeInner<T> {
    /// Slot of the first element. Always below the capacity.
    front: usize,
    /// Slot one past the last element. Always below the capacity.
    back: usize,
    /// Tells "full" from "empty" when `front == back`.
    full: bool,
    buffer: std::vec::Vec<Option<T>>,
}

/// A deque whose capacity is only known at run time.
pub type DequeView<T> = DequeInner<T>;

impl<T> View for DequeInner<T> {
    type V = Seq<T>;

    /// The live elements, front to back.
    closed spec fn view(&self) -> Seq<T> {
        Seq::new(self.spec_len(), |k: int| self.buffer@[self.slot(k)]->0)
    }
}

impl<T> DequeView<T> {
    /// The number of slots.
    pub closed spec fn spec_capacity(&self) -> nat {
        self.buffer@.len()
    }

    /// The number of live elements.
    pub closed spec fn spec_len(&self) -> nat {
        if self.full {
            self.buffer@.len()
        } else if self.front <= self.back {
            (self.back - self.front) as nat
        } else {
            (self.back + self.buffer@.len() - self.front) as nat
        }
    }

    /// The slot that holds the element at position `k` from the front.
    closed spec fn slot(&self, k: int) -> int {
        if self.front + k < self.buffer@.len() {
            self.front + k
        } else {
            self.front + k - self.buffer@.len()
        }
    }

    /// Whether slot `i` lies in the live region.
    closed spec fn is_live(&self, i: int) -> bool {
        if self.full {
            true
        } else if self.front <= self.back {
            self.front <= i < self.back
        } else {
            i >= self.front || i < self.back
        }
    }

    /// The cursors lie in the buffer, and exactly the live slots hold a value.
    pub closed spec fn wf(&self) -> bool {
        &&& self.buffer@.len() > 0
        &&& self.front < self.buffer@.len()
        &&& self.back < self.buffer@.len()
        &&& self.full ==> self.front == self.back
        &&& forall|i: int|
            0 <= i < self.buffer@.len() ==> (#[trigger] self.buffer@[i] is Some <==> self.is_live(i))
    }

    proof fn lemma_slots(&self)
        requires
            self.wf(),
        ensures
            self.spec_len() <= self.spec_capacity(),
            self@.len() == self.spec_len(),
            forall|k: int|
                0 <= k < self.spec_len() ==> {
                    &&& 0 <= #[trigger] self.slot(k) < self.spec_capacity()
                    &&& self.is_live(self.slot(k))
                    &&& self.buffer@[self.slot(k)] is Some
                    &&& self@[k] == self.buffer@[self.slot(k)]->0
                },
            forall|k1: int, k2: int|
                0 <= k1 < k2 < self.spec_capacity() ==> #[trigger] self.slot(k1) != #[trigger] self.slot(
                    k2,
                ),
            self.spec_len() < self.spec_capacity() ==> self.slot(self.spec_len() as int) == self.back,
    {
    }

    /// What a well-formed deque guarantees of its sizes: it has at least one
    /// slot, holds no more elements than slots, its front slot lies in the
    /// buffer, and the first of its two runs is empty only when it is.
    pub proof fn lemma_bounds(&self)
        requires
            self.wf(),
        ensures
            self.spec_capacity() > 0,
            self@.len() <= self.spec_capacity(),
            self.spec_front() < self.spec_capacity(),
            self@.len() > 0 ==> self.first_run_len() > 0,
            self.first_run_len() <= self@.len(),
    {
        self.lemma_slots();
    }

    fn increment(&self, i: usize) -> (r: usize)
        requires
            i < self.spec_capacity(),
        ensures
            r == if i + 1 == self.spec_capacity() { 0 } else { i + 1 },
    {
        let cap = self.buffer.len();
        if i + 1 == cap {
            0
        } else {
            i + 1
        }
    }

    fn decrement(&self, i: usize) -> (r: usize)
        requires
            i < self.spec_capacity(),
        ensures
            r == if i == 0 { self.spec_capacity() - 1 } else { i - 1 },
    {
        if i == 0 {
            self.buffer.len() - 1
        } else {
            i - 1
        }
    }

    /// Returns the maximum number of elements the deque can hold.
    pub fn capacity(&self) -> (r: usize)
        ensures
            r == self.spec_capacity(),
    {
        self.buffer.len()
    }

    /// Returns the number of elements currently in the deque.
    pub fn len(&self) -> (r: usize)
        requires
            self.wf(),
        ensures
            r == self@.len(),
    {
        proof {
            self.lemma_slots();
        }
        if self.full {
            self.buffer.len()
        } else if self.back < self.front {
            self.buffer.len() - self.front + self.back
        } else {
            self.back - self.front
        }
    }

    /// Returns whether the deque is empty.
    pub fn is_empty(&self) -> (r: bool)
        requires
            self.wf(),
        ensures
            r == (self@.len() == 0),
    {
        proof {
            self.lemma_slots();
        }
        self.front == self.back && !self.full
    }

    /// Returns whether the deque is full, that is whether `len() == capacity()`.
    pub fn is_full(&self) -> (r: bool)
        requires
            self.wf(),
        ensures
            r == (self@.len() == self.spec_capacity()),
    {
        proof {
            self.lemma_slots();
        }
        self.full
    }

    /// Appends an `item` to the back of the deque, which must not be full.
    pub fn push_back_unchecked(&mut self, item: T)
        requires
            old(self).wf(),
            old(self)@.len() < old(self).spec_capacity(),
        ensures
            final(self).spec_front() == old(self).spec_front(),
            final(self).wf(),
            final(self).spec_capacity() == old(self).spec_capacity(),
            final(self)@ == old(self)@.push(item),
    {
        proof {
            self.lemma_slots();
        }
        let ghost pre = *self;
        let b = self.back;
        self.buffer.set(b, Some(item));
        self.back = self.increment(b);
        if self.front == self.back {
            self.full = true;
        }
        proof {
            self.lemma_slots();
            assert forall|k: int| 0 <= k < pre.spec_len() implies self.slot(k) == pre.slot(k)
                && self.buffer@[self.slot(k)] == pre.buffer@[pre.slot(k)] by {}
            assert(self@ =~= pre@.push(item));
        }
    }

    /// Appends an `item` to the front of the deque, which must not be full.
    pub fn push_front_unchecked(&mut self, item: T)
        requires
            old(self).wf(),
            old(self)@.len() < old(self).spec_capacity(),
        ensures
            final(self).spec_front() == old(self).prev_slot(old(self).spec_front()),
            final(self).wf(),
            final(self).spec_capacity() == old(self).spec_capacity(),
            final(self)@ == seq![item] + old(self)@,
    {
        proof {
            self.lemma_slots();
        }
        let ghost pre = *self;
        let index = self.decrement(self.front);
        self.buffer.set(index, Some(item));
        self.front = index;
        if self.front == self.back {
            self.full = true;
        }
        proof {
            self.lemma_slots();
            assert forall|k: int| 0 <= k < pre.spec_len() implies self.slot(k + 1) == pre.slot(k)
                && self.buffer@[self.slot(k + 1)] == pre.buffer@[pre.slot(k)] by {}
            assert(self@ =~= seq![item] + pre@);
        }
    }

    /// Removes the element at the front of the deque, which must not be
    /// empty, and returns it.
    pub fn pop_front_unchecked(&mut self) -> (r: T)
        requires
            old(self).wf(),
            old(self)@.len() > 0,
        ensures
            final(self).spec_front() == old(self).next_slot(old(self).spec_front()),
            final(self).wf(),
            final(self).spec_capacity() == old(self).spec_capacity(),
            r == old(self)@[0],
            final(self)@ == old(self)@.subrange(1, old(self)@.len() as int),
    {
        proof {
            self.lemma_slots();
        }
        let ghost pre = *self;
        let index = self.front;
        self.full = false;
        self.front = self.increment(index);
        let cell = self.buffer[index].take();
        proof {
            self.lemma_slots();
            assert forall|k: int| 0 <= k < self.spec_len() implies self.slot(k) == pre.slot(k + 1)
                && self.buffer@[self.slot(k)] == pre.buffer@[pre.slot(k + 1)] by {
                assert(pre.slot(k + 1) != pre.slot(0));
            }
            assert(self@ =~= pre@.subrange(1, pre@.len() as int));
        }
        cell.unwrap()
    }

    /// Removes the element at the back of the deque, which must not be
    /// empty, and returns it.
    pub fn pop_back_unchecked(&mut self) -> (r: T)
        requires
            old(self).wf(),
            old(self)@.len() > 0,
        ensures
            final(self).spec_front() == old(self).spec_front(),
            final(self).wf(),
            final(self).spec_capacity() == old(self).spec_capacity(),
            r == old(self)@.last(),
            final(self)@ == old(self)@.drop_last(),
    {
        proof {
            self.lemma_slots();
        }
        let ghost pre = *self;
        self.full = false;
        self.back = self.decrement(self.back);
        let index = self.back;
        proof {
            assert(pre.slot(pre.spec_len() - 1) == index);
        }
        let cell = self.buffer[index].take();
        proof {
            self.lemma_slots();
            assert forall|k: int| 0 <= k < self.spec_len() implies self.slot(k) == pre.slot(k)
                && self.buffer@[self.slot(k)] == pre.buffer@[pre.slot(k)] by {
                assert(pre.slot(k) != pre.slot(pre.spec_len() - 1));
            }
            assert(self@ =~= pre@.drop_last());
        }
        cell.unwrap()
    }

    /// Removes the element at the front of the deque and returns it, or
    /// `None` if the deque is empty.
    pub fn pop_front(&mut self) -> (r: Option<T>)
        requires
            old(self).wf(),
        ensures
            final(self).spec_front() == if old(self)@.len() == 0 { old(self).spec_front() } else { old(self).next_slot(old(self).spec_front()) },
            final(self).wf(),
            final(self).spec_capacity() == old(self).spec_capacity(),
            old(self)@.len() == 0 ==> r is None && final(self)@ == old(self)@,
            old(self)@.len() > 0 ==> r == Some(old(self)@[0]) && final(self)@ == old(self)@.subrange(
                1,
                old(self)@.len() as int,
            ),
    {
        if self.is_empty() {
            None
        } else {
            Some(self.pop_front_unchecked())
        }
    }

    /// Removes the element at the back of the deque and returns it, or
    /// `None` if the deque is empty.
    pub fn pop_back(&mut self) -> (r: Option<T>)
        requires
            old(self).wf(),
        ensures
            final(self).spec_front() == old(self).spec_front(),
            final(self).wf(),
            final(self).spec_capacity() == old(self).spec_capacity(),
            old(self)@.len() == 0 ==> r is None && final(self)@ == old(self)@,
            old(self)@.len() > 0 ==> r == Some(old(self)@.last()) && final(self)@ == old(self)@.drop_last(),
    {
        if self.is_empty() {
            None
        } else {
            Some(self.pop_back_unchecked())
        }
    }

    /// Appends an `item` to the front of the deque; hands the item back if
    /// the deque is full.
    pub fn push_front(&mut self, item: T) -> (r: Result<(), T>)
        requires
            old(self).wf(),
        ensures
            final(self).spec_front() == if old(self)@.len() == old(self).spec_capacity() { old(self).spec_front() } else { old(self).prev_slot(old(self).spec_front()) },
            final(self).wf(),
            final(self).spec_capacity() == old(self).spec_capacity(),
            old(self)@.len() == old(self).spec_capacity() ==> r == Err::<(), T>(item) && final(self)@ == old(self)@,
            old(self)@.len() < old(self).spec_capacity() ==> r is Ok && final(self)@ == seq![item]
                + old(self)@,
    {
        if self.is_full() {
            Err(item)
        } else {
            self.push_front_unchecked(item);
            Ok(())
        }
    }

    /// Appends an `item` to the back of the deque; hands the item back if
    /// the deque is full.
    pub fn push_back(&mut self, item: T) -> (r: Result<(), T>)
        requires
            old(self).wf(),
        ensures
            final(self).spec_front() == old(self).spec_front(),
            final(self).wf(),
            final(self).spec_capacity() == old(self).spec_capacity(),
            old(self)@.len() == old(self).spec_capacity() ==> r == Err::<(), T>(item) && final(self)@ == old(self)@,
            old(self)@.len() < old(self).spec_capacity() ==> r is Ok && final(self)@ == old(self)@.push(item),
    {
        if self.is_full() {
            Err(item)
        } else {
            self.push_back_unchecked(item);
            Ok(())
        }
    }

    /// Provides a reference to the front element, or `None` if the deque is
    /// empty.
    pub fn front(&self) -> (r: Option<&T>)
        requires
            self.wf(),
        ensures
            r == (if self@.len() == 0 {
                None
            } else {
                Some(&self@[0])
            }),
    {
        proof {
            self.lemma_slots();
        }
        if self.is_empty() {
            None
        } else {
            self.buffer[self.front].as_ref()
        }
    }

    /// Provides a reference to the back element, or `None` if the deque is
    /// empty.
    pub fn back(&self) -> (r: Option<&T>)
        requires
            self.wf(),
        ensures
            r == (if self@.len() == 0 {
                None
            } else {
                Some(&self@.last())
            }),
    {
        proof {
            self.lemma_slots();
        }
        if self.is_empty() {
            None
        } else {
            let index = self.decrement(self.back);
            proof {
                assert(self.slot(self.spec_len() - 1) == index);
            }
            self.buffer[index].as_ref()
        }
    }

    /// Provides a mutable reference to the front element, or `None` if the
    /// deque is empty.
    pub fn front_mut(&mut self) -> (r: Option<&mut T>)
        requires
            old(self).wf(),
        ensures
            old(self)@.len() == 0 ==> r is None && *final(self) == *old(self),
            old(self)@.len() > 0 ==> r is Some && *r->0 == old(self)@[0] && final(self).wf()
                && final(self).spec_capacity() == old(self).spec_capacity() && final(self)@ == old(self)@.update(0, *final(r->0))
                && final(self).spec_front() == old(self).spec_front(),
    {
        proof {
            self.lemma_slots();
        }
        if self.is_empty() {
            None
        } else {
            let index = self.front;
            self.buffer[index].as_mut()
        }
    }

    /// Provides a mutable reference to the back element, or `None` if the
    /// deque is empty.
    pub fn back_mut(&mut self) -> (r: Option<&mut T>)
        requires
            old(self).wf(),
        ensures
            old(self)@.len() == 0 ==> r is None && *final(self) == *old(self),
            old(self)@.len() > 0 ==> r is Some && *r->0 == old(self)@.last() && final(self).wf()
                && final(self).spec_capacity() == old(self).spec_capacity() && final(self)@ == old(self)@.update(old(self)@.len() - 1, *final(r->0))
                && final(self).spec_front() == old(self).spec_front(),
    {
        proof {
            self.lemma_slots();
        }
        if self.is_empty() {
            None
        } else {
            let index = self.decrement(self.back);
            proof {
                assert(self.slot(self.spec_len() - 1) == index);
            }
            self.buffer[index].as_mut()
        }
    }

    /// The slot of the front element.
    pub closed spec fn spec_front(&self) -> nat {
        self.front as nat
    }

    /// The slot after slot `i`, wrapping at the end of the buffer.
    pub open spec fn next_slot(&self, i: nat) -> nat {
        if i + 1 == self.spec_capacity() {
            0
        } else {
            i + 1
        }
    }

    /// The slot before slot `i`, wrapping at the start of the buffer.
    pub open spec fn prev_slot(&self, i: nat) -> nat {
        if i == 0 {
            (self.spec_capacity() - 1) as nat
        } else {
            (i - 1) as nat
        }
    }

    /// What slot `k` holds once the live elements are laid out in order from
    /// slot `f` on.
    closed spec fn linear_cell(&self, f: int, k: int) -> Option<T> {
        if f <= k < f + self.spec_len() {
            self.buffer@[self.slot(k - f)]
        } else {
            None
        }
    }

    proof fn lemma_linear(pre: Self, post: Self, f: int)
        requires
            pre.wf(),
            post.buffer@.len() == pre.buffer@.len(),
            0 <= f < pre.spec_capacity(),
            f + pre.spec_len() <= pre.spec_capacity(),
            post.front == f,
            post.back == if f + pre.spec_len() == pre.spec_capacity() {
                0
            } else {
                f + pre.spec_len()
            },
            post.full == pre.full,
            forall|k: int|
                0 <= k < pre.spec_capacity() ==> #[trigger] post.buffer@[k] == pre.linear_cell(f, k),
        ensures
            post.wf(),
            post@ == pre@,
            post.spec_front() + post@.len() <= post.spec_capacity(),
    {
        pre.lemma_slots();
        assert forall|i: int| 0 <= i < post.buffer@.len() implies (#[trigger] post.buffer@[i] is Some
            <==> post.is_live(i)) by {
            if f <= i < f + pre.spec_len() {
                assert(pre.buffer@[pre.slot(i - f)] is Some);
            }
        }
        assert(post.wf());
        post.lemma_slots();
        assert(post@ =~= pre@);
    }

    /// Whether the live elements already lie in consecutive slots.
    fn is_contiguous(&self) -> (r: bool)
        requires
            self.wf(),
        ensures
            r == (self.spec_front() + self@.len() <= self.spec_capacity()),
    {
        proof {
            self.lemma_slots();
        }
        self.front <= self.capacity() - self.len()
    }

    /// Where the front element lands when the live elements are made
    /// contiguous.
    pub open spec fn contiguous_front(&self) -> nat {
        let cap = self.spec_capacity();
        let len = self@.len();
        let free = cap - len;
        let front_len = cap - self.spec_front();
        let back_len = len - front_len;
        if self.spec_front() + len <= cap {
            self.spec_front()
        } else if free >= front_len {
            0
        } else if free >= back_len {
            back_len as nat
        } else if front_len > back_len {
            free as nat
        } else {
            0
        }
    }

    /// Rearranges the buffer so that the live elements lie in consecutive
    /// slots, in the same order.
    ///
    /// When they do not, the part from `front` to the end of the buffer (the
    /// head) and the part from the start of the buffer to `back` (the tail)
    /// are brought together with as few moves as the free space allows: the
    /// tail is shifted up and the head copied below it, or the head shifted
    /// down and the tail copied above it, or, when neither fits, the shorter
    /// part is moved next to the other and the joined run rotated.
    #[verifier::spinoff_prover]
    #[verifier::rlimit(40)]
    fn linearize(&mut self)
        requires
            old(self).wf(),
        ensures
            final(self).wf(),
            final(self).spec_capacity() == old(self).spec_capacity(),
            final(self)@ == old(self)@,
            final(self).spec_front() == old(self).contiguous_front(),
            final(self).spec_front() + final(self)@.len() <= final(self).spec_capacity(),
    {
        if self.is_contiguous() {
            return ;
        }
        proof {
            self.lemma_slots();
        }
        let ghost pre = *self;
        let cap = self.buffer.len();
        let len = self.len();
        let free = cap - len;
        let front_len = cap - self.front;
        let back_len = len - front_len;
        assert(back_len == self.back);
        let ghost f: int;
        if free >= front_len {
            // from: DEFGH....ABC
            // to:   ABCDEFGH....
            if back_len > 0 {
                shift_up(&mut self.buffer, 0, front_len, back_len);
            }
            let ghost mid = self.buffer@;
            move_disjoint(&mut self.buffer, self.front, 0, front_len);
            proof {
                f = 0;
                assert forall|k: int| 0 <= k < cap implies #[trigger] self.buffer@[k]
                    == pre.linear_cell(f, k) by {
                    if k < front_len {
                        assert(self.buffer@[k] == mid[k + pre.front]);
                    } else if k < len {
                        assert(self.buffer@[k] == mid[k]);
                    }
                }
            }
            self.front = 0;
            self.back = len;
        } else if free >= back_len {
            // from: FGH....ABCDE
            // to:   ...ABCDEFGH.
            shift_down(&mut self.buffer, self.front, back_len, front_len);
            let ghost mid = self.buffer@;
            move_disjoint(&mut self.buffer, 0, len, back_len);
            proof {
                f = back_len as int;
                assert forall|k: int| 0 <= k < cap implies #[trigger] self.buffer@[k]
                    == pre.linear_cell(f, k) by {
                    if back_len <= k < len {
                        assert(self.buffer@[k] == mid[k]);
                    } else if len <= k < len + back_len {
                        assert(self.buffer@[k] == mid[k - len]);
                    }
                }
            }
            self.front = back_len;
            self.back = if len + back_len == cap {
                0
            } else {
                len + back_len
            };
        } else if front_len > back_len {
            // from: HIJK..ABCDEFG
            // via:  ..HIJKABCDEFG
            // to:   ..ABCDEFGHIJK
            if free != 0 {
                shift_up(&mut self.buffer, 0, free, back_len);
            }
            let ghost mid = self.buffer@;
            rotate_left_cells(&mut self.buffer, free, cap, back_len);
            proof {
                f = free as int;
                assert forall|k: int| 0 <= k < cap implies #[trigger] self.buffer@[k]
                    == pre.linear_cell(f, k) by {
                    if free <= k < cap - back_len {
                        assert(self.buffer@[k] == mid[k + back_len]);
                    } else if cap - back_len <= k {
                        assert(self.buffer@[k] == mid[k - (cap - free - back_len)]);
                    }
                }
            }
            self.front = free;
            self.back = 0;
        } else {
            // from: FGHIJK..ABCDE
            // via:  FGHIJKABCDE..
            // to:   ABCDEFGHIJK..
            if free != 0 {
                shift_down(&mut self.buffer, self.front, back_len, front_len);
            }
            let ghost mid = self.buffer@;
            rotate_left_cells(&mut self.buffer, 0, len, back_len);
            proof {
                f = 0;
                assert forall|k: int| 0 <= k < cap implies #[trigger] self.buffer@[k]
                    == pre.linear_cell(f, k) by {
                    if k < len - back_len {
                        assert(self.buffer@[k] == mid[k + back_len]);
                    } else if len - back_len <= k < len {
                        assert(self.buffer@[k] == mid[k - (len - back_len)]);
                    }
                }
            }
            self.front = 0;
            self.back = if len == cap {
                0
            } else {
                len
            };
        }
        proof {
            Self::lemma_linear(pre, *self, f);
        }
    }

    /// Length of the first of the two runs that hold the live elements.
    pub open spec fn first_run_len(&self) -> nat {
        if self@.len() == 0 {
            0
        } else if self.spec_front() + self@.len() <= self.spec_capacity() {
            self@.len()
        } else {
            (self.spec_capacity() - self.spec_front()) as nat
        }
    }

    /// A reference to the element at position `k` from the front.
    fn element(&self, k: usize) -> (r: &T)
        requires
            self.wf(),
            k < self@.len(),
        ensures
            *r == self@[k as int],
    {
        proof {
            self.lemma_slots();
        }
        let cap = self.buffer.len();
        let i = if k < cap - self.front {
            self.front + k
        } else {
            k - (cap - self.front)
        };
        self.buffer[i].as_ref().unwrap()
    }

    /// References to the elements at positions `from..to`, in order.
    fn refs_range(&self, from: usize, to: usize) -> (r: std::vec::Vec<&T>)
        requires
            self.wf(),
            from <= to <= self@.len(),
        ensures
            r@.len() == to - from,
            forall|i: int| 0 <= i < r@.len() ==> *#[trigger] r@[i] == self@[from + i],
    {
        let mut out: std::vec::Vec<&T> = std::vec::Vec::new();
        let mut k: usize = from;
        while k < to
            invariant
                self.wf(),
                from <= k <= to <= self@.len(),
                out@.len() == k - from,
                forall|i: int| 0 <= i < out@.len() ==> *#[trigger] out@[i] == self@[from + i],
            decreases to - k,
        {
            out.push(self.element(k));
            k += 1;
        }
        out
    }

    /// Returns, in order, the two runs of slots that hold the contents of the
    /// deque, as references to their elements: from the front element to the
    /// back one or to the end of the buffer, then from the start of the
    /// buffer to the back element. The second run is empty when the contents
    /// do not wrap around.
    pub fn as_slices(&self) -> (r: (std::vec::Vec<&T>, std::vec::Vec<&T>))
        requires
            self.wf(),
        ensures
            r.0@.len() == self.first_run_len(),
            r.0@.len() + r.1@.len() == self@.len(),
            forall|i: int| 0 <= i < r.0@.len() ==> *#[trigger] r.0@[i] == self@[i],
            forall|i: int| 0 <= i < r.1@.len() ==> *#[trigger] r.1@[i] == self@[r.0@.len() + i],
    {
        proof {
            self.lemma_slots();
        }
        let len = self.len();
        let split = if len == 0 {
            0
        } else if self.is_contiguous() {
            len
        } else {
            self.buffer.len() - self.front
        };
        let a = self.refs_range(0, split);
        let b = self.refs_range(split, len);
        (a, b)
    }

    /// Rearranges the buffer so that the contents of the deque lie in one
    /// run of slots, without changing their order, and returns references
    /// to them.
    ///
    /// Afterwards [`as_slices`](Self::as_slices) returns all the contents in
    /// its first run.
    pub fn make_contiguous(&mut self) -> (r: std::vec::Vec<&T>)
        requires
            old(self).wf(),
        ensures
            final(self).wf(),
            final(self).spec_capacity() == old(self).spec_capacity(),
            final(self)@ == old(self)@,
            r@.len() == old(self)@.len(),
            forall|i: int| 0 <= i < r@.len() ==> *#[trigger] r@[i] == old(self)@[i],
            final(self).spec_front() == old(self).contiguous_front(),
            final(self).first_run_len() == final(self)@.len(),
    {
        self.linearize();
        let len = self.len();
        self.refs_range(0, len)
    }

    /// Returns an iterator over the deque, front to back.
    pub fn iter(&self) -> (r: IterView<'_, T>)
        requires
            self.wf(),
        ensures
            r.wf(),
            r@ == self@,
    {
        let len = self.len();
        IterView { deque: self, next: 0, end: len }
    }

    /// Appends copies of `items` to the back of the deque, in order.
    pub fn extend(&mut self, items: &[T]) where T: Copy
        requires
            old(self).wf(),
            old(self)@.len() + items@.len() <= old(self).spec_capacity(),
        ensures
            final(self).spec_front() == old(self).spec_front(),
            final(self).wf(),
            final(self).spec_capacity() == old(self).spec_capacity(),
            final(self)@ == old(self)@ + items@,
    {
        let mut i: usize = 0;
        while i < items.len()
            invariant
                self.wf(),
                self.spec_capacity() == old(self).spec_capacity(),
                self.spec_front() == old(self).spec_front(),
                i <= items@.len(),
                old(self)@.len() + items@.len() <= self.spec_capacity(),
                self@ == old(self)@ + items@.subrange(0, i as int),
            decreases items@.len() - i,
        {
            let x: T = items[i];
            let _ = self.push_back(x);
            i += 1;
            assert(self@ =~= old(self)@ + items@.subrange(0, i as int));
        }
        assert(items@.subrange(0, items@.len() as int) =~= items@);
    }

    /// Provides a mutable reference to the element at position `index` from
    /// the front, or `None` if there is no such element.
    pub fn get_mut(&mut self, index: usize) -> (r: Option<&mut T>)
        requires
            old(self).wf(),
        ensures
            index >= old(self)@.len() ==> r is None && *final(self) == *old(self),
            index < old(self)@.len() ==> r is Some && *r->0 == old(self)@[index as int] && final(self).wf()
                && final(self).spec_capacity() == old(self).spec_capacity()
                && final(self)@ == old(self)@.update(index as int, *final(r->0))
                && final(self).spec_front() == old(self).spec_front(),
    {
        proof {
            self.lemma_slots();
        }
        if index >= self.len() {
            return None;
        }
        let cap = self.buffer.len();
        let i = if index < cap - self.front {
            self.front + index
        } else {
            index - (cap - self.front)
        };
        proof {
            assert(self.slot(index as int) == i);
        }
        self.buffer[i].as_mut()
    }

    /// Clears the deque, dropping all its elements.
    pub fn clear(&mut self)
        requires
            old(self).wf(),
        ensures
            final(self).spec_front() == 0,
            final(self).wf(),
            final(self).spec_capacity() == old(self).spec_capacity(),
            final(self)@ == Seq::<T>::empty(),
    {
        let cap = self.buffer.len();
        let mut i: usize = 0;
        while i < cap
            invariant
                cap == self.buffer@.len(),
                cap > 0,
                i <= cap,
                forall|j: int| 0 <= j < i ==> #[trigger] self.buffer@[j] is None,
            decreases cap - i,
        {
            self.buffer.set(i, None);
            i += 1;
        }
        self.front = 0;
        self.back = 0;
        self.full = false;
        assert(self@ =~= Seq::<T>::empty());
    }
}

/// An iterator over the elements of a [`DequeView`], front to back.
pub struct IterView<'a, T> {
    deque: &'a DequeView<T>,
    next: usize,
    end: usize,
}

impl<'a, T> View for IterView<'a, T> {
    type V = Seq<T>;

    /// The elements not yet yielded, front to back.
    closed spec fn view(&self) -> Seq<T> {
        self.deque@.subrange(self.next as int, self.end as int)
    }
}

impl<'a, T> IterView<'a, T> {
    pub closed spec fn wf(&self) -> bool {
        self.deque.wf() && self.next <= self.end <= self.deque@.len()
    }

    /// Yields the next element from the front, or `None` when all have been
    /// yielded.
    pub fn next(&mut self) -> (r: Option<&'a T>)
        requires
            old(self).wf(),
        ensures
            final(self).wf(),
            old(self)@.len() == 0 ==> r is None && final(self)@ == old(self)@,
            old(self)@.len() > 0 ==> r == Some(&old(self)@[0]) && final(self)@ == old(self)@.subrange(1, old(self)@.len() as int),
    {
        if self.next == self.end {
            None
        } else {
            let x = self.deque.element(self.next);
            self.next = self.next + 1;
            assert(self@ =~= old(self)@.subrange(1, old(self)@.len() as int));
            Some(x)
        }
    }

    /// Yields the next element from the back, or `None` when all have been
    /// yielded.
    pub fn next_back(&mut self) -> (r: Option<&'a T>)
        requires
            old(self).wf(),
        ensures
            final(self).wf(),
            old(self)@.len() == 0 ==> r is None && final(self)@ == old(self)@,
            old(self)@.len() > 0 ==> r == Some(&old(self)@.last()) && final(self)@ == old(self)@.drop_last(),
    {
        if self.next == self.end {
            None
        } else {
            self.end = self.end - 1;
            let x = self.deque.element(self.end);
            assert(self@ =~= old(self)@.drop_last());
            Some(x)
        }
    }
}

/// A double-ended queue with a fixed capacity of `N` elements.
///
/// All its operations are those of the [`DequeView`] it holds, which
/// [`as_view`](Self::as_view) and [`as_mut_view`](Self::as_mut_view) lend out
/// without copying.
#[derive(Clone)]
pub struct Deque<T, const N: usize> {
    view: DequeView<T>,
}

impl<T, const N: usize> View for Deque<T, N> {
    type V = Seq<T>;

    open spec fn view(&self) -> Seq<T> {
        self.spec_view()@
    }
}

impl<T, const N: usize> Deque<T, N> {
    /// The view is well formed and has `N` slots.
    pub open spec fn wf(&self) -> bool {
        self.spec_view().wf() && self.spec_view().spec_capacity() == N
    }

    /// The view this deque holds.
    pub closed spec fn spec_view(&self) -> DequeView<T> {
        self.view
    }

    /// The slot of the front element.
    pub open spec fn spec_front(&self) -> nat {
        self.spec_view().spec_front()
    }

    /// What a well-formed deque guarantees of its sizes; see
    /// [`DequeView::lemma_bounds`].
    pub proof fn lemma_bounds(&self)
        requires
            self.wf(),
        ensures
            N > 0,
            self@.len() <= N,
            self.spec_front() < N,
            self@.len() > 0 ==> self.spec_view().first_run_len() > 0,
            self.spec_view().first_run_len() <= self@.len(),
    {
        self.spec_view().lemma_bounds();
    }

    /// Constructs a new, empty deque with a capacity of `N`, which must be
    /// positive.
    pub fn new() -> (r: Self)
        requires
            N > 0,
        ensures
            r.wf(),
            r@ == Seq::<T>::empty(),
            r.spec_front() == 0,
    {
        let mut buffer: std::vec::Vec<Option<T>> = std::vec::Vec::with_capacity(N);
        let mut i: usize = 0;
        while i < N
            invariant
                i <= N,
                buffer@.len() == i,
                forall|j: int| 0 <= j < i ==> #[trigger] buffer@[j] is None,
            decreases N - i,
        {
            buffer.push(None);
            i += 1;
        }
        let r = Deque { view: DequeInner { front: 0, back: 0, full: false, buffer } };
        assert(r@ =~= Seq::<T>::empty());
        r
    }

    /// Lends out the deque as a [`DequeView`], which has forgotten `N`.
    pub fn as_view(&self) -> (r: &DequeView<T>)
        requires
            self.wf(),
        ensures
            *r == self.spec_view(),
            r.wf(),
            r.spec_capacity() == N,
            r@ == self@,
    {
        &self.view
    }

    /// Lends out the deque mutably as a [`DequeView`], which has forgotten
    /// `N`.
    pub fn as_mut_view(&mut self) -> (r: &mut DequeView<T>)
        requires
            old(self).wf(),
        ensures
            *r == old(self).spec_view(),
            r.wf(),
            r.spec_capacity() == N,
            final(self).spec_view() == *final(r),
    {
        &mut self.view
    }

    /// Returns the maximum number of elements the deque can hold.
    pub fn capacity(&self) -> (r: usize)
        ensures
            r == N,
    {
        N
    }

    /// Returns the number of elements currently in the deque.
    pub fn len(&self) -> (r: usize)
        requires
            self.wf(),
        ensures
            r == self@.len(),
    {
        self.as_view().len()
    }

    /// Clears the deque, dropping all its elements.
    pub fn clear(&mut self)
        requires
            old(self).wf(),
        ensures
            final(self).spec_front() == 0,
            final(self).wf(),
            final(self)@ == Seq::<T>::empty(),
    {
        self.as_mut_view().clear()
    }

    /// Returns whether the deque is empty.
    pub fn is_empty(&self) -> (r: bool)
        requires
            self.wf(),
        ensures
            r == (self@.len() == 0),
    {
        self.as_view().is_empty()
    }

    /// Returns whether the deque is full, that is whether `len() == capacity()`.
    pub fn is_full(&self) -> (r: bool)
        requires
            self.wf(),
        ensures
            r == (self@.len() == N),
    {
        self.as_view().is_full()
    }

    /// Returns, in order, the two runs of slots that hold the contents of the
    /// deque, as references to their elements; see
    /// [`DequeView::as_slices`].
    pub fn as_slices(&self) -> (r: (std::vec::Vec<&T>, std::vec::Vec<&T>))
        requires
            self.wf(),
        ensures
            r.0@.len() == self.spec_view().first_run_len(),
            r.0@.len() + r.1@.len() == self@.len(),
            forall|i: int| 0 <= i < r.0@.len() ==> *#[trigger] r.0@[i] == self@[i],
            forall|i: int| 0 <= i < r.1@.len() ==> *#[trigger] r.1@[i] == self@[r.0@.len() + i],
    {
        self.as_view().as_slices()
    }

    /// Lays the contents of the deque out in one run of slots and returns
    /// references to them; see [`DequeView::make_contiguous`].
    pub fn make_contiguous(&mut self) -> (r: std::vec::Vec<&T>)
        requires
            old(self).wf(),
        ensures
            final(self).wf(),
            final(self)@ == old(self)@,
            r@.len() == old(self)@.len(),
            forall|i: int| 0 <= i < r@.len() ==> *#[trigger] r@[i] == old(self)@[i],
            final(self).spec_front() == old(self).spec_view().contiguous_front(),
            final(self).spec_view().first_run_len() == final(self)@.len(),
    {
        self.as_mut_view().make_contiguous()
    }

    /// Provides a reference to the front element, or `None` if the deque is
    /// empty.
    pub fn front(&self) -> (r: Option<&T>)
        requires
            self.wf(),
        ensures
            r == (if self@.len() == 0 {
                None
            } else {
                Some(&self@[0])
            }),
    {
        self.as_view().front()
    }

    /// Provides a mutable reference to the front element, or `None` if the
    /// deque is empty.
    pub fn front_mut(&mut self) -> (r: Option<&mut T>)
        requires
            old(self).wf(),
        ensures
            old(self)@.len() == 0 ==> r is None && final(self)@ == old(self)@ && final(self).wf(),
            old(self)@.len() > 0 ==> r is Some && *r->0 == old(self)@[0] && final(self).wf()
                && final(self)@ == old(self)@.update(0, *final(r->0)) && final(self).spec_front() == old(self).spec_front(),
    {
        self.as_mut_view().front_mut()
    }

    /// Provides a reference to the back element, or `None` if the deque is
    /// empty.
    pub fn back(&self) -> (r: Option<&T>)
        requires
            self.wf(),
        ensures
            r == (if self@.len() == 0 {
                None
            } else {
                Some(&self@.last())
            }),
    {
        self.as_view().back()
    }

    /// Provides a mutable reference to the back element, or `None` if the
    /// deque is empty.
    pub fn back_mut(&mut self) -> (r: Option<&mut T>)
        requires
            old(self).wf(),
        ensures
            old(self)@.len() == 0 ==> r is None && final(self)@ == old(self)@ && final(self).wf(),
            old(self)@.len() > 0 ==> r is Some && *r->0 == old(self)@.last() && final(self).wf()
                && final(self)@ == old(self)@.update(old(self)@.len() - 1, *final(r->0)) && final(self).spec_front() == old(self).spec_front(),
    {
        self.as_mut_view().back_mut()
    }

    /// Provides a mutable reference to the element at position `index` from
    /// the front, or `None` if there is no such element.
    pub fn get_mut(&mut self, index: usize) -> (r: Option<&mut T>)
        requires
            old(self).wf(),
        ensures
            index >= old(self)@.len() ==> r is None && final(self)@ == old(self)@ && final(self).wf()
                && final(self).spec_front() == old(self).spec_front(),
            index < old(self)@.len() ==> r is Some && *r->0 == old(self)@[index as int] && final(self).wf()
                && final(self)@ == old(self)@.update(index as int, *final(r->0))
                && final(self).spec_front() == old(self).spec_front(),
    {
        self.as_mut_view().get_mut(index)
    }

    /// Removes the element at the front of the deque and returns it, or
    /// `None` if the deque is empty.
    pub fn pop_front(&mut self) -> (r: Option<T>)
        requires
            old(self).wf(),
        ensures
            final(self).spec_front() == if old(self)@.len() == 0 { old(self).spec_front() } else { old(self).spec_view().next_slot(old(self).spec_front()) },
            final(self).wf(),
            old(self)@.len() == 0 ==> r is None && final(self)@ == old(self)@,
            old(self)@.len() > 0 ==> r == Some(old(self)@[0]) && final(self)@ == old(self)@.subrange(
                1,
                old(self)@.len() as int,
            ),
    {
        self.as_mut_view().pop_front()
    }

    /// Removes the element at the back of the deque and returns it, or
    /// `None` if the deque is empty.
    pub fn pop_back(&mut self) -> (r: Option<T>)
        requires
            old(self).wf(),
        ensures
            final(self).spec_front() == old(self).spec_front(),
            final(self).wf(),
            old(self)@.len() == 0 ==> r is None && final(self)@ == old(self)@,
            old(self)@.len() > 0 ==> r == Some(old(self)@.last()) && final(self)@ == old(self)@.drop_last(),
    {
        self.as_mut_view().pop_back()
    }

    /// Appends an `item` to the front of the deque; hands the item back if
    /// the deque is full.
    pub fn push_front(&mut self, item: T) -> (r: Result<(), T>)
        requires
            old(self).wf(),
        ensures
            final(self).spec_front() == if old(self)@.len() == N { old(self).spec_front() } else { old(self).spec_view().prev_slot(old(self).spec_front()) },
            final(self).wf(),
            old(self)@.len() == N ==> r == Err::<(), T>(item) && final(self)@ == old(self)@,
            old(self)@.len() < N ==> r is Ok && final(self)@ == seq![item] + old(self)@,
    {
        self.as_mut_view().push_front(item)
    }

    /// Appends an `item` to the back of the deque; hands the item back if
    /// the deque is full.
    pub fn push_back(&mut self, item: T) -> (r: Result<(), T>)
        requires
            old(self).wf(),
        ensures
            final(self).spec_front() == old(self).spec_front(),
            final(self).wf(),
            old(self)@.len() == N ==> r == Err::<(), T>(item) && final(self)@ == old(self)@,
            old(self)@.len() < N ==> r is Ok && final(self)@ == old(self)@.push(item),
    {
        self.as_mut_view().push_back(item)
    }

    /// Removes the element at the front of the deque, which must not be
    /// empty, and returns it.
    pub fn pop_front_unchecked(&mut self) -> (r: T)
        requires
            old(self).wf(),
            old(self)@.len() > 0,
        ensures
            final(self).spec_front() == old(self).spec_view().next_slot(old(self).spec_front()),
            final(self).wf(),
            r == old(self)@[0],
            final(self)@ == old(self)@.subrange(1, old(self)@.len() as int),
    {
        self.as_mut_view().pop_front_unchecked()
    }

    /// Removes the element at the back of the deque, which must not be
    /// empty, and returns it.
    pub fn pop_back_unchecked(&mut self) -> (r: T)
        requires
            old(self).wf(),
            old(self)@.len() > 0,
        ensures
            final(self).spec_front() == old(self).spec_front(),
            final(self).wf(),
            r == old(self)@.last(),
            final(self)@ == old(self)@.drop_last(),
    {
        self.as_mut_view().pop_back_unchecked()
    }

    /// Appends an `item` to the front of the deque, which must not be full.
    pub fn push_front_unchecked(&mut self, item: T)
        requires
            old(self).wf(),
            old(self)@.len() < N,
        ensures
            final(self).spec_front() == old(self).spec_view().prev_slot(old(self).spec_front()),
            final(self).wf(),
            final(self)@ == seq![item] + old(self)@,
    {
        self.as_mut_view().push_front_unchecked(item)
    }

    /// Appends an `item` to the back of the deque, which must not be full.
    pub fn push_back_unchecked(&mut self, item: T)
        requires
            old(self).wf(),
            old(self)@.len() < N,
        ensures
            final(self).spec_front() == old(self).spec_front(),
            final(self).wf(),
            final(self)@ == old(self)@.push(item),
    {
        self.as_mut_view().push_back_unchecked(item)
    }

    /// Appends copies of `items` to the back of the deque, in order.
    pub fn extend(&mut self, items: &[T]) where T: Copy
        requires
            old(self).wf(),
            old(self)@.len() + items@.len() <= N,
        ensures
            final(self).spec_front() == old(self).spec_front(),
            final(self).wf(),
            final(self)@ == old(self)@ + items@,
    {
        self.as_mut_view().extend(items)
    }

    /// Returns an iterator over the deque, front to back.
    pub fn iter(&self) -> (r: Iter<'_, T, N>)
        requires
            self.wf(),
        ensures
            r.wf(),
            r@ == self@,
    {
        Iter { inner: self.as_view().iter() }
    }

    /// Turns the deque into an iterator that yields its elements, front to
    /// back.
    pub fn into_iter(self) -> (r: IntoIter<T, N>)
        requires
            self.wf(),
        ensures
            r.wf(),
            r@ == self@,
    {
        IntoIter { deque: self }
    }
}

/// A deque of either kind, lent out as a [`DequeView`]: code written against
/// this trait works on any deque whatever its capacity.
pub trait DequeBuffer {
    /// The element type.
    type T;

    /// The deque is well formed.
    spec fn deque_wf(&self) -> bool;

    /// Its contents, front to back.
    spec fn contents(&self) -> Seq<Self::T>;

    /// Lends out the deque as a [`DequeView`].
    fn as_view(&self) -> (r: &DequeView<Self::T>)
        requires
            self.deque_wf(),
        ensures
            r.wf(),
            r@ == self.contents(),
    ;

    /// Lends out the deque mutably as a [`DequeView`]; the deque stays well
    /// formed as long as the view keeps its capacity.
    fn as_mut_view(&mut self) -> (r: &mut DequeView<Self::T>)
        requires
            old(self).deque_wf(),
        ensures
            r.wf(),
            r@ == old(self).contents(),
            final(r).wf() && final(r).spec_capacity() == r.spec_capacity() ==> final(self).deque_wf()
                && final(self).contents() == final(r)@,
    ;
}

impl<T, const N: usize> DequeBuffer for Deque<T, N> {
    type T = T;

    open spec fn deque_wf(&self) -> bool {
        self.wf()
    }

    open spec fn contents(&self) -> Seq<T> {
        self@
    }

    fn as_view(&self) -> (r: &DequeView<T>) {
        Deque::as_view(self)
    }

    fn as_mut_view(&mut self) -> (r: &mut DequeView<T>) {
        Deque::as_mut_view(self)
    }
}

impl<T> DequeBuffer for DequeView<T> {
    type T = T;

    open spec fn deque_wf(&self) -> bool {
        self.wf()
    }

    open spec fn contents(&self) -> Seq<T> {
        self@
    }

    fn as_view(&self) -> (r: &DequeView<T>) {
        self
    }

    fn as_mut_view(&mut self) -> (r: &mut DequeView<T>) {
        self
    }
}

/// An iterator over the elements of a [`Deque`], front to back.
pub struct Iter<'a, T, const N: usize> {
    inner: IterView<'a, T>,
}

impl<'a, T, const N: usize> View for Iter<'a, T, N> {
    type V = Seq<T>;

    /// The elements not yet yielded, front to back.
    closed spec fn view(&self) -> Seq<T> {
        self.inner@
    }
}

impl<'a, T, const N: usize> Iter<'a, T, N> {
    pub closed spec fn wf(&self) -> bool {
        self.inner.wf()
    }

    /// Yields the next element from the front, or `None` when all have been
    /// yielded.
    pub fn next(&mut self) -> (r: Option<&'a T>)
        requires
            old(self).wf(),
        ensures
            final(self).wf(),
            old(self)@.len() == 0 ==> r is None && final(self)@ == old(self)@,
            old(self)@.len() > 0 ==> r == Some(&old(self)@[0]) && final(self)@ == old(self)@.subrange(1, old(self)@.len() as int),
    {
        self.inner.next()
    }

    /// Yields the next element from the back, or `None` when all have been
    /// yielded.
    pub fn next_back(&mut self) -> (r: Option<&'a T>)
        requires
            old(self).wf(),
        ensures
            final(self).wf(),
            old(self)@.len() == 0 ==> r is None && final(self)@ == old(self)@,
            old(self)@.len() > 0 ==> r == Some(&old(self)@.last()) && final(self)@ == old(self)@.drop_last(),
    {
        self.inner.next_back()
    }


    /// The number of elements left to yield, as both bounds.
    pub fn size_hint(&self) -> (r: (usize, Option<usize>))
        requires
            self.wf(),
        ensures
            r.0 == self@.len(),
            r.1 == Some(r.0),
    {
        let len = self.inner.end - self.inner.next;
        (len, Some(len))
    }
}

/// An iterator that moves the elements out of a [`Deque`], front to back.
pub struct IntoIter<T, const N: usize> {
    deque: Deque<T, N>,
}

impl<T, const N: usize> View for IntoIter<T, N> {
    type V = Seq<T>;

    /// The elements not yet yielded, front to back.
    closed spec fn view(&self) -> Seq<T> {
        self.deque@
    }
}

impl<T, const N: usize> IntoIter<T, N> {
    pub closed spec fn wf(&self) -> bool {
        self.deque.wf()
    }

    /// Moves out the next element, or returns `None` when all have been.
    pub fn next(&mut self) -> (r: Option<T>)
        requires
            old(self).wf(),
        ensures
            final(self).wf(),
            old(self)@.len() == 0 ==> r is None && final(self)@ == old(self)@,
            old(self)@.len() > 0 ==> r == Some(old(self)@[0]) && final(self)@ == old(self)@.subrange(1, old(self)@.len() as int),
    {
        self.deque.pop_front()
    }
}

/// One push or pop at an end of a deque; used to state laws about sequences
/// of them.
pub enum DequeOp<T> {
    PushFront(T),
    PushBack(T),
    PopFront,
    PopBack,
}

/// The contents after one operation, as that operation's contract gives it.
pub open spec fn apply_op<T>(s: Seq<T>, op: DequeOp<T>) -> Seq<T> {
    match op {
        DequeOp::PushFront(x) => seq![x] + s,
        DequeOp::PushBack(x) => s.push(x),
        DequeOp::PopFront => s.subrange(1, s.len() as int),
        DequeOp::PopBack => s.drop_last(),
    }
}

/// What one operation pops: nothing for a push, one element for a pop.
pub open spec fn popped_by<T>(s: Seq<T>, op: DequeOp<T>) -> Seq<T> {
    match op {
        DequeOp::PopFront => seq![s[0]],
        DequeOp::PopBack => seq![s.last()],
        _ => Seq::empty(),
    }
}

/// Whether one operation neither pushes onto a full deque of capacity `cap`
/// nor pops from an empty one.
pub open spec fn op_in_bounds<T>(s: Seq<T>, op: DequeOp<T>, cap: nat) -> bool {
    match op {
        DequeOp::PushFront(_) | DequeOp::PushBack(_) => s.len() < cap,
        _ => s.len() > 0,
    }
}

/// The contents after the operations `ops`, in order, starting from `s`.
pub open spec fn run_ops<T>(s: Seq<T>, ops: Seq<DequeOp<T>>) -> Seq<T>
    decreases ops.len(),
{
    if ops.len() == 0 {
        s
    } else {
        run_ops(apply_op(s, ops[0]), ops.subrange(1, ops.len() as int))
    }
}

/// The values popped by the operations `ops`, in the order they come out.
pub open spec fn popped_by_ops<T>(s: Seq<T>, ops: Seq<DequeOp<T>>) -> Seq<T>
    decreases ops.len(),
{
    if ops.len() == 0 {
        Seq::empty()
    } else {
        popped_by(s, ops[0]) + popped_by_ops(apply_op(s, ops[0]), ops.subrange(1, ops.len() as int))
    }
}

/// Whether every one of the operations `ops` stays in bounds.
pub open spec fn ops_in_bounds<T>(s: Seq<T>, ops: Seq<DequeOp<T>>, cap: nat) -> bool
    decreases ops.len(),
{
    ops.len() == 0 || (op_in_bounds(s, ops[0], cap) && ops_in_bounds(
        apply_op(s, ops[0]),
        ops.subrange(1, ops.len() as int),
        cap,
    ))
}

/// The number of pushes among `ops`.
pub open spec fn count_pushes<T>(ops: Seq<DequeOp<T>>) -> nat
    decreases ops.len(),
{
    if ops.len() == 0 {
        0
    } else {
        (match ops[0] {
            DequeOp::PushFront(_) | DequeOp::PushBack(_) => 1nat,
            _ => 0nat,
        }) + count_pushes(ops.subrange(1, ops.len() as int))
    }
}

/// The number of pops among `ops`.
pub open spec fn count_pops<T>(ops: Seq<DequeOp<T>>) -> nat
    decreases ops.len(),
{
    if ops.len() == 0 {
        0
    } else {
        (match ops[0] {
            DequeOp::PopFront | DequeOp::PopBack => 1nat,
            _ => 0nat,
        }) + count_pops(ops.subrange(1, ops.len() as int))
    }
}

/// A push at the back of each of `xs`, in order.
pub open spec fn push_backs<T>(xs: Seq<T>) -> Seq<DequeOp<T>> {
    Seq::new(xs.len(), |i: int| DequeOp::PushBack(xs[i]))
}

/// A push at the front of each of `xs`, in order.
pub open spec fn push_fronts<T>(xs: Seq<T>) -> Seq<DequeOp<T>> {
    Seq::new(xs.len(), |i: int| DequeOp::PushFront(xs[i]))
}

/// `n` pops at the front.
pub open spec fn pop_fronts<T>(n: nat) -> Seq<DequeOp<T>> {
    Seq::new(n, |i: int| DequeOp::PopFront)
}

/// `n` pops at the back.
pub open spec fn pop_backs<T>(n: nat) -> Seq<DequeOp<T>> {
    Seq::new(n, |i: int| DequeOp::PopBack)
}

/// After any pushes and pops that stay within the capacity, the length is
/// the starting length plus the number of pushes minus the number of pops.
pub proof fn lemma_len_counts_ops<T>(s: Seq<T>, ops: Seq<DequeOp<T>>, cap: nat)
    requires
        s.len() <= cap,
        ops_in_bounds(s, ops, cap),
    ensures
        run_ops(s, ops).len() == s.len() + count_pushes(ops) - count_pops(ops),
        run_ops(s, ops).len() <= cap,
    decreases ops.len(),
{
    if ops.len() > 0 {
        lemma_len_counts_ops(apply_op(s, ops[0]), ops.subrange(1, ops.len() as int), cap);
    }
}

proof fn lemma_run_concat<T>(s: Seq<T>, a: Seq<DequeOp<T>>, b: Seq<DequeOp<T>>)
    ensures
        run_ops(s, a + b) == run_ops(run_ops(s, a), b),
        popped_by_ops(s, a + b) == popped_by_ops(s, a) + popped_by_ops(run_ops(s, a), b),
    decreases a.len(),
{
    if a.len() == 0 {
        assert(a + b =~= b);
        assert(popped_by_ops(s, a + b) =~= popped_by_ops(s, a) + popped_by_ops(run_ops(s, a), b));
    } else {
        let rest = a.subrange(1, a.len() as int);
        assert((a + b).subrange(1, (a + b).len() as int) =~= rest + b);
        assert((a + b)[0] == a[0]);
        lemma_run_concat(apply_op(s, a[0]), rest, b);
        assert(popped_by_ops(s, a + b) =~= popped_by_ops(s, a) + popped_by_ops(run_ops(s, a), b));
    }
}

proof fn lemma_run_push_backs<T>(s: Seq<T>, xs: Seq<T>)
    ensures
        run_ops(s, push_backs(xs)) == s + xs,
        popped_by_ops(s, push_backs(xs)) == Seq::<T>::empty(),
    decreases xs.len(),
{
    if xs.len() == 0 {
        assert(s + xs =~= s);
    } else {
        let rest = xs.subrange(1, xs.len() as int);
        assert(push_backs(xs).subrange(1, xs.len() as int) =~= push_backs(rest));
        lemma_run_push_backs(s.push(xs[0]), rest);
        assert(s.push(xs[0]) + rest =~= s + xs);
        assert(Seq::<T>::empty() + Seq::<T>::empty() =~= Seq::<T>::empty());
    }
}

proof fn lemma_run_push_fronts<T>(s: Seq<T>, xs: Seq<T>)
    ensures
        run_ops(s, push_fronts(xs)) == xs.reverse() + s,
        popped_by_ops(s, push_fronts(xs)) == Seq::<T>::empty(),
    decreases xs.len(),
{
    if xs.len() == 0 {
        assert(xs.reverse() + s =~= s);
    } else {
        let rest = xs.subrange(1, xs.len() as int);
        assert(push_fronts(xs).subrange(1, xs.len() as int) =~= push_fronts(rest));
        lemma_run_push_fronts(seq![xs[0]] + s, rest);
        assert(rest.reverse() + (seq![xs[0]] + s) =~= xs.reverse() + s);
        assert(Seq::<T>::empty() + Seq::<T>::empty() =~= Seq::<T>::empty());
    }
}

proof fn lemma_run_pop_fronts<T>(t: Seq<T>, n: nat)
    requires
        n <= t.len(),
    ensures
        run_ops(t, pop_fronts(n)) == t.subrange(n as int, t.len() as int),
        popped_by_ops(t, pop_fronts(n)) == t.subrange(0, n as int),
    decreases n,
{
    if n == 0 {
        assert(t.subrange(0, t.len() as int) =~= t);
        assert(t.subrange(0, 0) =~= Seq::<T>::empty());
    } else {
        let next = t.subrange(1, t.len() as int);
        assert(pop_fronts::<T>(n).subrange(1, n as int) =~= pop_fronts::<T>((n - 1) as nat));
        lemma_run_pop_fronts(next, (n - 1) as nat);
        assert(next.subrange((n - 1) as int, next.len() as int) =~= t.subrange(n as int, t.len() as int));
        assert(seq![t[0]] + next.subrange(0, n - 1) =~= t.subrange(0, n as int));
    }
}

proof fn lemma_run_pop_backs<T>(t: Seq<T>, n: nat)
    requires
        n <= t.len(),
    ensures
        run_ops(t, pop_backs(n)) == t.subrange(0, t.len() - n),
        popped_by_ops(t, pop_backs(n)) == t.subrange(t.len() - n, t.len() as int).reverse(),
    decreases n,
{
    if n == 0 {
        assert(t.subrange(0, t.len() as int) =~= t);
        assert(t.subrange(t.len() as int, t.len() as int).reverse() =~= Seq::<T>::empty());
    } else {
        let next = t.drop_last();
        assert(pop_backs::<T>(n).subrange(1, n as int) =~= pop_backs::<T>((n - 1) as nat));
        lemma_run_pop_backs(next, (n - 1) as nat);
        assert(next.subrange(0, next.len() - (n - 1)) =~= t.subrange(0, t.len() - n));
        assert(seq![t.last()] + next.subrange(next.len() - (n - 1), next.len() as int).reverse()
            =~= t.subrange(t.len() - n, t.len() as int).reverse());
    }
}

proof fn lemma_bounds_concat<T>(s: Seq<T>, a: Seq<DequeOp<T>>, b: Seq<DequeOp<T>>, cap: nat)
    requires
        ops_in_bounds(s, a, cap),
        ops_in_bounds(run_ops(s, a), b, cap),
    ensures
        ops_in_bounds(s, a + b, cap),
    decreases a.len(),
{
    if a.len() == 0 {
        assert(a + b =~= b);
    } else {
        let rest = a.subrange(1, a.len() as int);
        assert((a + b).subrange(1, (a + b).len() as int) =~= rest + b);
        assert((a + b)[0] == a[0]);
        lemma_bounds_concat(apply_op(s, a[0]), rest, b, cap);
    }
}

proof fn lemma_push_backs_in_bounds<T>(s: Seq<T>, xs: Seq<T>, cap: nat)
    requires
        s.len() + xs.len() <= cap,
    ensures
        ops_in_bounds(s, push_backs(xs), cap),
    decreases xs.len(),
{
    if xs.len() > 0 {
        let rest = xs.subrange(1, xs.len() as int);
        assert(push_backs(xs).subrange(1, xs.len() as int) =~= push_backs(rest));
        lemma_push_backs_in_bounds(s.push(xs[0]), rest, cap);
    }
}

proof fn lemma_push_fronts_in_bounds<T>(s: Seq<T>, xs: Seq<T>, cap: nat)
    requires
        s.len() + xs.len() <= cap,
    ensures
        ops_in_bounds(s, push_fronts(xs), cap),
    decreases xs.len(),
{
    if xs.len() > 0 {
        let rest = xs.subrange(1, xs.len() as int);
        assert(push_fronts(xs).subrange(1, xs.len() as int) =~= push_fronts(rest));
        lemma_push_fronts_in_bounds(seq![xs[0]] + s, rest, cap);
    }
}

proof fn lemma_pop_fronts_in_bounds<T>(t: Seq<T>, n: nat, cap: nat)
    requires
        n <= t.len(),
    ensures
        ops_in_bounds(t, pop_fronts(n), cap),
    decreases n,
{
    if n > 0 {
        assert(pop_fronts::<T>(n).subrange(1, n as int) =~= pop_fronts::<T>((n - 1) as nat));
        lemma_pop_fronts_in_bounds(t.subrange(1, t.len() as int), (n - 1) as nat, cap);
    }
}

proof fn lemma_pop_backs_in_bounds<T>(t: Seq<T>, n: nat, cap: nat)
    requires
        n <= t.len(),
    ensures
        ops_in_bounds(t, pop_backs(n), cap),
    decreases n,
{
    if n > 0 {
        assert(pop_backs::<T>(n).subrange(1, n as int) =~= pop_backs::<T>((n - 1) as nat));
        lemma_pop_backs_in_bounds(t.drop_last(), (n - 1) as nat, cap);
    }
}

/// Pushing `xs` at the back of a deque holding `s`, then popping from the
/// front until it is empty, stays within the capacity, yields `s` and then
/// `xs` in the order they were pushed, and leaves the deque empty.
pub proof fn lemma_fifo_back_to_front<T>(s: Seq<T>, xs: Seq<T>, cap: nat)
    requires
        s.len() + xs.len() <= cap,
    ensures
        ops_in_bounds(s, push_backs(xs) + pop_fronts(s.len() + xs.len()), cap),
        popped_by_ops(s, push_backs(xs) + pop_fronts(s.len() + xs.len())) == s + xs,
        run_ops(s, push_backs(xs) + pop_fronts(s.len() + xs.len())) == Seq::<T>::empty(),
{
    let n = s.len() + xs.len();
    lemma_run_concat(s, push_backs(xs), pop_fronts(n));
    lemma_run_push_backs(s, xs);
    lemma_run_pop_fronts(s + xs, n);
    lemma_push_backs_in_bounds(s, xs, cap);
    lemma_pop_fronts_in_bounds(s + xs, n, cap);
    lemma_bounds_concat(s, push_backs(xs), pop_fronts(n), cap);
    assert((s + xs).subrange(0, n as int) =~= s + xs);
    assert(Seq::<T>::empty() + (s + xs) =~= s + xs);
    assert((s + xs).subrange(n as int, n as int) =~= Seq::<T>::empty());
}

/// Pushing `xs` at the front of a deque holding `s`, then popping from the
/// back until it is empty, stays within the capacity, yields `s` from its
/// back and then `xs` in the order they were pushed, and leaves the deque
/// empty.
pub proof fn lemma_fifo_front_to_back<T>(s: Seq<T>, xs: Seq<T>, cap: nat)
    requires
        s.len() + xs.len() <= cap,
    ensures
        ops_in_bounds(s, push_fronts(xs) + pop_backs(s.len() + xs.len()), cap),
        popped_by_ops(s, push_fronts(xs) + pop_backs(s.len() + xs.len())) == s.reverse() + xs,
        run_ops(s, push_fronts(xs) + pop_backs(s.len() + xs.len())) == Seq::<T>::empty(),
{
    let n = s.len() + xs.len();
    lemma_run_concat(s, push_fronts(xs), pop_backs(n));
    lemma_run_push_fronts(s, xs);
    let t = xs.reverse() + s;
    lemma_run_pop_backs(t, n);
    lemma_push_fronts_in_bounds(s, xs, cap);
    lemma_pop_backs_in_bounds(t, n, cap);
    lemma_bounds_concat(s, push_fronts(xs), pop_backs(n), cap);
    assert(t.subrange(0, n as int).reverse() =~= s.reverse() + xs);
    assert(Seq::<T>::empty() + (s.reverse() + xs) =~= s.reverse() + xs);
    assert(t.subrange(0, 0) =~= Seq::<T>::empty());
}

/// Pushing `xs` at the back of a deque holding `s`, then popping as many
/// from the back, stays within the capacity, yields `xs` in reverse, and
/// leaves `s`.
pub proof fn lemma_lifo_back<T>(s: Seq<T>, xs: Seq<T>, cap: nat)
    requires
        s.len() + xs.len() <= cap,
    ensures
        ops_in_bounds(s, push_backs(xs) + pop_backs(xs.len()), cap),
        popped_by_ops(s, push_backs(xs) + pop_backs(xs.len())) == xs.reverse(),
        run_ops(s, push_backs(xs) + pop_backs(xs.len())) == s,
{
    lemma_run_concat(s, push_backs(xs), pop_backs(xs.len()));
    lemma_run_push_backs(s, xs);
    lemma_run_pop_backs(s + xs, xs.len());
    lemma_push_backs_in_bounds(s, xs, cap);
    lemma_pop_backs_in_bounds(s + xs, xs.len(), cap);
    lemma_bounds_concat(s, push_backs(xs), pop_backs(xs.len()), cap);
    assert((s + xs).subrange(0, s.len() as int) =~= s);
    assert((s + xs).subrange(s.len() as int, (s + xs).len() as int) =~= xs);
    assert(Seq::<T>::empty() + xs.reverse() =~= xs.reverse());
}

/// Pushing `xs` at the front of a deque holding `s`, then popping as many
/// from the front, stays within the capacity, yields `xs` in reverse, and
/// leaves `s`.
pub proof fn lemma_lifo_front<T>(s: Seq<T>, xs: Seq<T>, cap: nat)
    requires
        s.len() + xs.len() <= cap,
    ensures
        ops_in_bounds(s, push_fronts(xs) + pop_fronts(xs.len()), cap),
        popped_by_ops(s, push_fronts(xs) + pop_fronts(xs.len())) == xs.reverse(),
        run_ops(s, push_fronts(xs) + pop_fronts(xs.len())) == s,
{
    lemma_run_concat(s, push_fronts(xs), pop_fronts(xs.len()));
    lemma_run_push_fronts(s, xs);
    let t = xs.reverse() + s;
    lemma_run_pop_fronts(t, xs.len());
    lemma_push_fronts_in_bounds(s, xs, cap);
    lemma_pop_fronts_in_bounds(t, xs.len(), cap);
    lemma_bounds_concat(s, push_fronts(xs), pop_fronts(xs.len()), cap);
    assert(t.subrange(0, xs.len() as int) =~= xs.reverse());
    assert(t.subrange(xs.len() as int, t.len() as int) =~= s);
    assert(Seq::<T>::empty() + xs.reverse() =~= xs.reverse());
}

/// A deque is never both empty and full.
pub proof fn lemma_empty_full_exclusive<T>(d: DequeView<T>)
    requires
        d.wf(),
    ensures
        !(d@.len() == 0 && d@.len() == d.spec_capacity()),
{
    d.lemma_slots();
}

/// Once the contents lie in one run, as after `make_contiguous`, the two
/// runs that `as_slices` returns are the whole contents and nothing.
pub proof fn lemma_contiguous_runs<T>(d: DequeView<T>, first_len: nat, second_len: nat)
    requires
        d.wf(),
        d.first_run_len() == d@.len(),
        first_len == d.first_run_len(),
        first_len + second_len == d@.len(),
    ensures
        first_len == d@.len(),
        second_len == 0,
{
}

} // verus!
