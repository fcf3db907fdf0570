//! The array layout of a binary heap, as mathematics.
//!
//! A heap of `n` elements is a sequence whose positions are counted from 1:
//! position 1 is the root, and position `i` has its parent at `i / 2` and
//! its children at `2 * i` and `2 * i + 1`. This module says what the two
//! repair walks do to such a sequence, and proves what they preserve.

use vstd::prelude::*;

verus! {

/// The position above `i`.
pub open spec fn parent(i: int) -> int {
    i / 2
}

/// The position of the left child of `i`.
pub open spec fn left(i: int) -> int {
    2 * i
}

/// The position of the right child of `i`.
pub open spec fn right(i: int) -> int {
    2 * i + 1
}

/// The element at position `i`, counting from 1.
pub open spec fn at<T>(s: Seq<T>, i: int) -> T {
    s[i - 1]
}

/// `s` with the elements at positions `i` and `j` exchanged.
pub open spec fn swapped<T>(s: Seq<T>, i: int, j: int) -> Seq<T> {
    s.update(i - 1, at(s, j)).update(j - 1, at(s, i))
}

/// The element at position `i` should not sit above the one at its parent.
pub open spec fn settled<T>(s: Seq<T>, above: spec_fn(T, T) -> bool, i: int) -> bool {
    !above(at(s, i), at(s, parent(i)))
}

/// The heap property: every position below the root is settled.
pub open spec fn heap_ordered<T>(s: Seq<T>, above: spec_fn(T, T) -> bool) -> bool {
    forall|i: int| 1 < i <= s.len() ==> #[trigger] settled(s, above, i)
}

/// The result of sifting up from position `i`: while the element there
/// should sit above its parent, the two change places.
pub open spec fn sifted_up<T>(s: Seq<T>, above: spec_fn(T, T) -> bool, i: int) -> Seq<T>
    decreases i,
{
    if 1 < i <= s.len() && above(at(s, i), at(s, parent(i))) {
        sifted_up(swapped(s, i, parent(i)), above, parent(i))
    } else {
        s
    }
}

/// The child of `i` that a sift-down would promote: the only child if there
/// is one, else the left child if it should sit above the right one, else
/// the right child. A position without children answers itself.
pub open spec fn preferred_child<T>(s: Seq<T>, above: spec_fn(T, T) -> bool, i: int) -> int {
    if left(i) > s.len() {
        i
    } else if right(i) > s.len() {
        left(i)
    } else if above(at(s, left(i)), at(s, right(i))) {
        left(i)
    } else {
        right(i)
    }
}

/// The result of sifting down from position `i`: while the preferred child
/// should sit above the element at `i`, the two change places.
pub open spec fn sifted_down<T>(s: Seq<T>, above: spec_fn(T, T) -> bool, i: int) -> Seq<T>
    decreases s.len() - i,
{
    if 1 <= i && left(i) <= s.len() && above(at(s, preferred_child(s, above, i)), at(s, i)) {
        sifted_down(swapped(s, i, preferred_child(s, above, i)), above, preferred_child(s, above, i))
    } else {
        s
    }
}

/// The heap after `value` is added: appended, then sifted up.
pub open spec fn inserted<T>(s: Seq<T>, above: spec_fn(T, T) -> bool, value: T) -> Seq<T> {
    sifted_up(s.push(value), above, s.len() as int + 1)
}

/// The heap after its root is taken: the last element moves to the root
/// and is sifted down. An empty heap stays empty.
pub open spec fn extracted<T>(s: Seq<T>, above: spec_fn(T, T) -> bool) -> Seq<T> {
    if s.len() <= 1 {
        Seq::empty()
    } else {
        sifted_down(s.update(0, s.last()).drop_last(), above, 1)
    }
}

/// The grandparent of position `i` need not give way to the element at `i`.
pub open spec fn below_grandparent<T>(s: Seq<T>, above: spec_fn(T, T) -> bool, i: int) -> bool {
    !above(at(s, i), at(s, parent(parent(i))))
}

/// What holds in the middle of a sift-up that has reached `hole`: every
/// other position is settled, and the children of `hole` would be settled
/// under its parent as well.
pub open spec fn ordered_around_rising<T>(s: Seq<T>, above: spec_fn(T, T) -> bool, hole: int) -> bool {
    &&& forall|i: int| 1 < i <= s.len() && i != hole ==> #[trigger] settled(s, above, i)
    &&& forall|i: int|
        3 < i <= s.len() && parent(i) == hole ==> #[trigger] below_grandparent(s, above, i)
}

/// What holds in the middle of a sift-down that has reached `hole`: every
/// position but the children of `hole` is settled, and those children would
/// be settled under its parent.
pub open spec fn ordered_around_sinking<T>(s: Seq<T>, above: spec_fn(T, T) -> bool, hole: int) -> bool {
    &&& forall|i: int| 1 < i <= s.len() && parent(i) != hole ==> #[trigger] settled(s, above, i)
    &&& forall|i: int|
        3 < i <= s.len() && parent(i) == hole ==> #[trigger] below_grandparent(s, above, i)
}

/// Exchanging two elements keeps the length and the elements.
pub proof fn lemma_swapped_permutes<T>(s: Seq<T>, i: int, j: int)
    requires
        1 <= i <= s.len(),
        1 <= j <= s.len(),
    ensures
        swapped(s, i, j).len() == s.len(),
        swapped(s, i, j).to_multiset() == s.to_multiset(),
{
    broadcast use vstd::seq_lib::group_to_multiset_ensures;

}

/// Sifting up rearranges the elements and loses none.
pub proof fn lemma_sifted_up_permutes<T>(s: Seq<T>, above: spec_fn(T, T) -> bool, i: int)
    ensures
        sifted_up(s, above, i).len() == s.len(),
        sifted_up(s, above, i).to_multiset() == s.to_multiset(),
    decreases i,
{
    if 1 < i <= s.len() && above(at(s, i), at(s, parent(i))) {
        lemma_swapped_permutes(s, i, parent(i));
        lemma_sifted_up_permutes(swapped(s, i, parent(i)), above, parent(i));
    }
}

/// Sifting down rearranges the elements and loses none.
pub proof fn lemma_sifted_down_permutes<T>(s: Seq<T>, above: spec_fn(T, T) -> bool, i: int)
    ensures
        sifted_down(s, above, i).len() == s.len(),
        sifted_down(s, above, i).to_multiset() == s.to_multiset(),
    decreases s.len() - i,
{
    let m = preferred_child(s, above, i);
    if 1 <= i && left(i) <= s.len() && above(at(s, m), at(s, i)) {
        lemma_swapped_permutes(s, i, m);
        lemma_sifted_down_permutes(swapped(s, i, m), above, m);
    }
}

/// A sift-up that starts where only the hole is out of place ends in a heap.
pub proof fn lemma_sifted_up_ordered<T>(s: Seq<T>, above: spec_fn(T, T) -> bool, i: int)
    requires
        crate::order::strict_weak_order(above),
        1 <= i <= s.len(),
        ordered_around_rising(s, above, i),
    ensures
        heap_ordered(sifted_up(s, above, i), above),
    decreases i,
{
    let p = parent(i);
    if 1 < i && above(at(s, i), at(s, p)) {
        let t = swapped(s, i, p);
        assert forall|k: int| 1 < k <= t.len() && k != p implies #[trigger] settled(t, above, k) by {
            // The old parent, now at `i`, gives way to the element that rose
            // past it; the children of `i` were settled under it already.
            if parent(k) == i {
                assert(below_grandparent(s, above, k));
            } else if k != i {
                assert(settled(s, above, k));
            }
        }
        assert forall|k: int| 3 < k <= t.len() && parent(k) == p implies #[trigger] below_grandparent(
            t,
            above,
            k,
        ) by {
            assert(settled(s, above, p));
            if k != i {
                assert(settled(s, above, k));
            }
        }
        lemma_sifted_up_ordered(t, above, p);
    } else {
        assert forall|k: int| 1 < k <= s.len() implies #[trigger] settled(s, above, k) by {}
    }
}

/// A sift-down that starts where only the hole is out of place ends in a
/// heap.
pub proof fn lemma_sifted_down_ordered<T>(s: Seq<T>, above: spec_fn(T, T) -> bool, i: int)
    requires
        crate::order::strict_weak_order(above),
        1 <= i,
        ordered_around_sinking(s, above, i),
    ensures
        heap_ordered(sifted_down(s, above, i), above),
    decreases s.len() - i,
{
    let m = preferred_child(s, above, i);
    if left(i) <= s.len() && above(at(s, m), at(s, i)) {
        let t = swapped(s, i, m);
        assert forall|k: int| 1 < k <= t.len() && parent(k) != m implies #[trigger] settled(
            t,
            above,
            k,
        ) by {
            // The preferred child, now at `i`, gives way to neither the
            // element that sank past it nor to its sibling.
            if k == i {
                assert(below_grandparent(s, above, m));
            } else if parent(k) != i {
                assert(settled(s, above, k));
            }
        }
        assert forall|k: int| 3 < k <= t.len() && parent(k) == m implies #[trigger] below_grandparent(
            t,
            above,
            k,
        ) by {
            assert(settled(s, above, k));
        }
        lemma_sifted_down_ordered(t, above, m);
    } else {
        // The preferred child stays below, and so does its sibling, which
        // should not sit above the preferred child.
        assert forall|k: int| 1 < k <= s.len() implies #[trigger] settled(s, above, k) by {}
    }
}

/// In a heap nothing should sit above the root.
pub proof fn lemma_root_on_top<T>(s: Seq<T>, above: spec_fn(T, T) -> bool, i: int)
    requires
        crate::order::strict_weak_order(above),
        heap_ordered(s, above),
        1 <= i <= s.len(),
    ensures
        !above(at(s, i), at(s, 1)),
    decreases i,
{
    if i > 1 {
        assert(settled(s, above, i));
        lemma_root_on_top(s, above, parent(i));
    }
}

/// Adding gains exactly `value` and keeps the heap property.
pub proof fn lemma_inserted<T>(s: Seq<T>, above: spec_fn(T, T) -> bool, value: T)
    ensures
        inserted(s, above, value).len() == s.len() + 1,
        inserted(s, above, value).to_multiset() == s.to_multiset().insert(value),
        crate::order::strict_weak_order(above) && heap_ordered(s, above) ==> heap_ordered(
            inserted(s, above, value),
            above,
        ),
{
    broadcast use vstd::seq_lib::group_to_multiset_ensures;

    let t = s.push(value);
    let n = t.len() as int;
    lemma_sifted_up_permutes(t, above, n);
    if crate::order::strict_weak_order(above) && heap_ordered(s, above) {
        assert forall|i: int| 1 < i <= t.len() && i != n implies #[trigger] settled(t, above, i) by {
            assert(settled(s, above, i));
        }
        lemma_sifted_up_ordered(t, above, n);
    }
}

/// Taking the root loses exactly the root and keeps the heap property.
pub proof fn lemma_extracted<T>(s: Seq<T>, above: spec_fn(T, T) -> bool)
    ensures
        s.len() > 0 ==> extracted(s, above).len() == s.len() - 1,
        s.len() > 0 ==> s.to_multiset() == extracted(s, above).to_multiset().insert(s[0]),
        crate::order::strict_weak_order(above) && heap_ordered(s, above) ==> heap_ordered(
            extracted(s, above),
            above,
        ),
{
    broadcast use vstd::seq_lib::group_to_multiset_ensures;

    if s.len() > 1 {
        let u = s.update(0, s.last());
        let t = u.drop_last();
        lemma_sifted_down_permutes(t, above, 1);
        assert(t =~= u.remove(u.len() - 1));
        if crate::order::strict_weak_order(above) && heap_ordered(s, above) {
            assert forall|i: int| 1 < i <= t.len() && parent(i) != 1 implies #[trigger] settled(
                t,
                above,
                i,
            ) by {
                assert(settled(s, above, i));
            }
            lemma_sifted_down_ordered(t, above, 1);
        }
    } else if s.len() == 1 {
        assert(s =~= Seq::<T>::empty().push(s[0]));
    }
}

} // verus!
