//! A binary heap over a vector, ordered by a comparator chosen at
//! construction.
//!
//! The vector keeps a placeholder in slot 0, so that the element at
//! position `i` of the heap lives in slot `i` and the index arithmetic of
//! [`crate::sift`] applies unchanged.

use crate::order::{Ascending, Comparator, Descending};
use vstd::prelude::*;

verus! {

/// Exchanges the elements in slots `a` and `b` of `items`.
fn swap_slots<T>(items: &mut Vec<T>, a: usize, b: usize)
    requires
        a < old(items)@.len(),
        b < old(items)@.len(),
    ensures
        final(items)@ == old(items)@.update(a as int, old(items)@[b as int]).update(
            b as int,
            old(items)@[a as int],
        ),
{
    if a < b {
        let (low, high) = items.as_mut_slice().split_at_mut(b);
        core::mem::swap(&mut low[a], &mut high[0]);
    } else if b < a {
        let (low, high) = items.as_mut_slice().split_at_mut(a);
        core::mem::swap(&mut low[b], &mut high[0]);
    }
    assert(items@ =~= old(items)@.update(a as int, old(items)@[b as int]).update(
        b as int,
        old(items)@[a as int],
    ));
}

/// A binary heap whose root is an element that no other element should sit
/// above, according to the comparator.
pub struct Heap<T: Default, C: Comparator<T>> {
    count: usize,
    items: Vec<T>,
    comparator: C,
}

impl<T: Default, C: Comparator<T>> View for Heap<T, C> {
    type V = Seq<T>;

    /// The elements in heap layout: the root first, then level by level.
    closed spec fn view(&self) -> Seq<T> {
        self.items@.skip(1)
    }
}

impl<T: Default, C: Comparator<T>> Heap<T, C> {
    /// The comparator that the heap was built with.
    pub closed spec fn order(&self) -> C {
        self.comparator
    }

    /// The slots of the backing vector: the placeholder in slot 0, then
    /// the elements.
    pub closed spec fn slots(&self) -> Seq<T> {
        self.items@
    }

    /// The vector has its placeholder and the comparator can be asked.
    spec fn shaped(&self) -> bool {
        &&& self.items@.len() == self.count + 1
        &&& self.comparator.wf()
    }

    /// The invariant of the heap. Under a comparator that is a strict weak
    /// order it includes the heap property.
    pub closed spec fn wf(&self) -> bool {
        &&& self.shaped()
        &&& crate::order::strict_weak_order(self.comparator.relation()) ==> crate::sift::heap_ordered(
            self@,
            self.comparator.relation(),
        )
    }

    /// A well-formed heap under a strict weak order has the heap property.
    pub proof fn lemma_heap_ordered(&self)
        requires
            self.wf(),
            crate::order::strict_weak_order(self.order().relation()),
        ensures
            crate::sift::heap_ordered(self@, self.order().relation()),
    {
    }

    /// A well-formed heap has one slot more than it has elements: slot 0
    /// holds the placeholder, and the element at position `i` is in slot
    /// `i`.
    pub proof fn lemma_layout(&self)
        requires
            self.wf(),
        ensures
            self.slots().len() == self@.len() + 1,
            self@ == self.slots().skip(1),
            forall|i: int| 1 <= i <= self@.len() ==> crate::sift::at(self@, i) == self.slots()[i],
    {
    }

    /// The element at position `i` is in slot `i`.
    proof fn lemma_slot(&self, i: int)
        requires
            self.shaped(),
            1 <= i <= self.count,
        ensures
            self@.len() == self.count,
            crate::sift::at(self@, i) == self.items@[i],
    {
    }

    /// An empty heap ordered by `comparator`. Its vector holds the
    /// placeholder, a default value, and nothing else.
    pub fn new(comparator: C) -> (heap: Self)
        requires
            comparator.wf(),
        ensures
            heap.wf(),
            heap.order() == comparator,
            heap@ == Seq::<T>::empty(),
            heap.slots().len() == 1,
            call_ensures(T::default, (), heap.slots()[0]),
    {
        let heap = Self { count: 0, items: vec![T::default()], comparator };
        heap
    }

    /// The number of elements.
    pub fn len(&self) -> (n: usize)
        requires
            self.wf(),
        ensures
            n == self@.len(),
    {
        self.count
    }

    /// Whether the heap holds no element.
    pub fn is_empty(&self) -> (b: bool)
        requires
            self.wf(),
        ensures
            b == (self@.len() == 0),
    {
        self.len() == 0
    }

    /// The queries read the heap and change nothing, so what they answer
    /// depends on the heap alone: asked again about the same heap, each
    /// gives the same answer, and the two agree with each other.
    pub proof fn lemma_queries_repeat(&self, n1: usize, n2: usize, b1: bool, b2: bool)
        requires
            self.wf(),
            call_ensures(Self::len, (self,), n1),
            call_ensures(Self::len, (self,), n2),
            call_ensures(Self::is_empty, (self,), b1),
            call_ensures(Self::is_empty, (self,), b2),
        ensures
            n1 == n2,
            b1 == b2,
            b1 == (n1 == 0),
    {
    }

    /// Moves the element at `idx` towards the root while it should sit
    /// above its parent.
    fn sift_up(&mut self, idx: usize)
        requires
            old(self).shaped(),
            1 <= idx <= old(self).count,
        ensures
            final(self).shaped(),
            final(self).comparator == old(self).comparator,
            final(self).items@[0] == old(self).items@[0],
            final(self)@ == crate::sift::sifted_up(old(self)@, old(self).comparator.relation(), idx as int),
    {
        let mut current_idx = idx;
        let mut parent_idx = self.parent_idx(current_idx);
        proof {
            self.lemma_slot(current_idx as int);
            if current_idx > 1 {
                self.lemma_slot(parent_idx as int);
            }
        }
        while current_idx > 1 && self.comparator.compare(
            &self.items[current_idx],
            &self.items[parent_idx],
        )
            invariant
                self.shaped(),
                1 <= current_idx <= self.count,
                parent_idx == current_idx / 2,
                self.comparator == old(self).comparator,
                self.items@[0] == old(self).items@[0],
                crate::sift::sifted_up(self@, self.comparator.relation(), current_idx as int)
                    == crate::sift::sifted_up(old(self)@, old(self).comparator.relation(), idx as int),
            decreases current_idx,
        {
            let ghost before = self@;
            proof {
                self.lemma_slot(current_idx as int);
                self.lemma_slot(parent_idx as int);
            }
            swap_slots(&mut self.items, current_idx, parent_idx);
            assert(self@ =~= crate::sift::swapped(before, current_idx as int, parent_idx as int));
            current_idx = parent_idx;
            parent_idx = self.parent_idx(current_idx);
        }
        proof {
            self.lemma_slot(current_idx as int);
            if current_idx > 1 {
                self.lemma_slot(parent_idx as int);
            }
        }
    }

    /// Moves the element at `idx` towards the leaves while its preferred
    /// child should sit above it.
    fn sift_down(&mut self, idx: usize)
        requires
            old(self).shaped(),
            1 <= idx <= old(self).count,
        ensures
            final(self).shaped(),
            final(self).comparator == old(self).comparator,
            final(self).items@[0] == old(self).items@[0],
            final(self)@ == crate::sift::sifted_down(old(self)@, old(self).comparator.relation(), idx as int),
    {
        let mut current_idx = idx;
        while self.children_present(current_idx)
            invariant_except_break
                crate::sift::sifted_down(self@, self.comparator.relation(), current_idx as int)
                    == crate::sift::sifted_down(old(self)@, old(self).comparator.relation(), idx as int),
            invariant
                self.shaped(),
                1 <= current_idx <= self.count,
                self.comparator == old(self).comparator,
                self.items@[0] == old(self).items@[0],
            ensures
                self@ == crate::sift::sifted_down(old(self)@, old(self).comparator.relation(), idx as int),
            decreases self.count - current_idx,
        {
            let child_idx = self.smallest_child_idx(current_idx);
            let ghost before = self@;
            proof {
                self.lemma_slot(current_idx as int);
                self.lemma_slot(child_idx as int);
            }
            if self.comparator.compare(&self.items[child_idx], &self.items[current_idx]) {
                swap_slots(&mut self.items, current_idx, child_idx);
                assert(self@ =~= crate::sift::swapped(before, current_idx as int, child_idx as int));
                current_idx = child_idx;
            } else {
                break ;
            }
        }
    }

    /// Adds `value` and restores the heap property by sifting it up from
    /// the last position.
    pub fn add(&mut self, value: T)
        requires
            old(self).wf(),
        ensures
            final(self).wf(),
            final(self).order() == old(self).order(),
            final(self)@ == crate::sift::inserted(old(self)@, old(self).order().relation(), value),
            final(self)@.len() == old(self)@.len() + 1,
            final(self)@.to_multiset() == old(self)@.to_multiset().insert(value),
            final(self).slots()[0] == old(self).slots()[0],
            crate::order::strict_weak_order(old(self).order().relation()) ==> crate::sift::heap_ordered(
                final(self)@,
                old(self).order().relation(),
            ),
    {
        self.items.push(value);
        proof {
            vstd::std_specs::vec::axiom_spec_len(&self.items);
        }
        self.count += 1;
        assert(self@ =~= old(self)@.push(value));
        self.sift_up(self.count);
        proof {
            crate::sift::lemma_inserted(old(self)@, old(self).comparator.relation(), value);
        }
    }

    /// The slot above `idx`.
    fn parent_idx(&self, idx: usize) -> (r: usize)
        ensures
            r == crate::sift::parent(idx as int),
    {
        idx / 2
    }

    /// Whether `idx` has a child in the heap. The left child would be in
    /// slot `2 * idx`; comparing `idx` with half the count says the same
    /// and cannot overflow.
    fn children_present(&self, idx: usize) -> (r: bool)
        requires
            self.shaped(),
        ensures
            r == (crate::sift::left(idx as int) <= self@.len()),
    {
        idx <= self.count / 2
    }

    /// The slot of the left child of `idx`.
    fn left_child_idx(&self, idx: usize) -> (r: usize)
        requires
            crate::sift::left(idx as int) <= usize::MAX,
        ensures
            r == crate::sift::left(idx as int),
    {
        idx * 2
    }

    /// The slot of the right child of `idx`.
    fn right_child_idx(&self, idx: usize) -> (r: usize)
        requires
            crate::sift::right(idx as int) <= usize::MAX,
        ensures
            r == crate::sift::right(idx as int),
    {
        self.left_child_idx(idx) + 1
    }

    /// The child of `idx` that should sit above the other, the only child
    /// if there is one, or `idx` itself if there is none.
    fn smallest_child_idx(&self, idx: usize) -> (r: usize)
        requires
            self.shaped(),
            1 <= idx <= self.count,
        ensures
            r == crate::sift::preferred_child(self@, self.comparator.relation(), idx as int),
            idx <= r <= self.count,
    {
        if !self.children_present(idx) {
            return idx;
        }
        let left_idx = self.left_child_idx(idx);
        let right_idx = self.right_child_idx(idx);
        if right_idx > self.count {
            return left_idx;
        }
        proof {
            self.lemma_slot(left_idx as int);
            self.lemma_slot(right_idx as int);
        }
        if self.comparator.compare(&self.items[left_idx], &self.items[right_idx]) {
            left_idx
        } else {
            right_idx
        }
    }

    /// Takes the root out. The last element moves to the root and is sifted
    /// down. An empty heap yields nothing and stays as it is. Under a
    /// strict weak order no element of the heap should sit above the one
    /// that is yielded.
    pub fn next(&mut self) -> (r: Option<T>)
        requires
            old(self).wf(),
        ensures
            final(self).wf(),
            final(self).order() == old(self).order(),
            r == (if old(self)@.len() == 0 {
                None
            } else {
                Some(old(self)@[0])
            }),
            final(self)@ == crate::sift::extracted(old(self)@, old(self).order().relation()),
            r is Some ==> final(self)@.len() == old(self)@.len() - 1,
            r is Some ==> old(self)@.to_multiset() == final(self)@.to_multiset().insert(r->0),
            final(self).slots()[0] == old(self).slots()[0],
            crate::order::strict_weak_order(old(self).order().relation()) ==> crate::sift::heap_ordered(
                final(self)@,
                old(self).order().relation(),
            ),
            r is Some && crate::order::strict_weak_order(old(self).order().relation()) ==> forall|i: int|
                0 <= i < old(self)@.len() ==> !(old(self).order().relation())(
                    #[trigger] old(self)@[i],
                    r->0,
                ),
    {
        if self.is_empty() {
            return None;
        }
        let mut result = T::default();
        core::mem::swap(&mut self.items[1], &mut result);
        if self.count > 1 {
            let last = self.items.pop().unwrap();
            self.items[1] = last;
        } else {
            self.items.pop();
        }
        self.count -= 1;
        proof {
            if old(self)@.len() > 1 {
                assert(self@ =~= old(self)@.update(0, old(self)@.last()).drop_last());
            }
        }
        if self.count > 0 {
            self.sift_down(1);
        }
        proof {
            crate::sift::lemma_extracted(old(self)@, old(self).comparator.relation());
            if crate::order::strict_weak_order(old(self).comparator.relation()) {
                let above = old(self).comparator.relation();
                assert forall|i: int| 0 <= i < old(self)@.len() implies !above(
                    #[trigger] old(self)@[i],
                    result,
                ) by {
                    crate::sift::lemma_root_on_top(old(self)@, above, i + 1);
                }
            }
        }
        Some(result)
    }
}

impl<T: Default + Ord> Heap<T, Ascending> {
    /// An empty heap that yields its least element first. In proofs
    /// `T` must be a type whose `<` obeys its `partial_cmp_spec`.
    pub fn new_min() -> (heap: Self)
        requires
            Comparator::<T>::wf(&Ascending),
        ensures
            heap.wf(),
            heap.order() == Ascending,
            heap@ == Seq::<T>::empty(),
    {
        Self::new(Ascending)
    }
}

impl<T: Default + Ord> Heap<T, Descending> {
    /// An empty heap that yields its greatest element first. In proofs
    /// `T` must be a type whose `>` obeys its `partial_cmp_spec`.
    pub fn new_max() -> (heap: Self)
        requires
            Comparator::<T>::wf(&Descending),
        ensures
            heap.wf(),
            heap.order() == Descending,
            heap@ == Seq::<T>::empty(),
    {
        Self::new(Descending)
    }
}

/// Builds heaps that yield their least element first.
pub struct MinHeap;

impl MinHeap {
    /// An empty heap in ascending order.
    pub fn new<T: Default + Ord>() -> (heap: Heap<T, Ascending>)
        requires
            Comparator::<T>::wf(&Ascending),
        ensures
            heap.wf(),
            heap.order() == Ascending,
            heap@ == Seq::<T>::empty(),
    {
        Heap::new(Ascending)
    }
}

/// Builds heaps that yield their greatest element first.
pub struct MaxHeap;

impl MaxHeap {
    /// An empty heap in descending order.
    pub fn new<T: Default + Ord>() -> (heap: Heap<T, Descending>)
        requires
            Comparator::<T>::wf(&Descending),
        ensures
            heap.wf(),
            heap.order() == Descending,
            heap@ == Seq::<T>::empty(),
    {
        Heap::new(Descending)
    }
}

} // verus!
