//! Laws of the heap that speak of whole runs of operations: what any
//! sequence of additions and extractions leaves behind, and in which order
//! repeated extraction yields the elements.

use vstd::prelude::*;

verus! {

/// One operation on a heap.
pub enum Step<T> {
    /// An element is added.
    Add(T),
    /// The root is taken out, if there is one.
    Pull,
}

/// The heap that a run of steps leaves when it starts on the empty heap.
pub open spec fn replay<T>(above: spec_fn(T, T) -> bool, steps: Seq<Step<T>>) -> Seq<T>
    decreases steps.len(),
{
    if steps.len() == 0 {
        Seq::empty()
    } else {
        let before = replay(above, steps.drop_last());
        match steps.last() {
            Step::Add(value) => crate::sift::inserted(before, above, value),
            Step::Pull => crate::sift::extracted(before, above),
        }
    }
}

/// The number of additions in a run.
pub open spec fn additions<T>(steps: Seq<Step<T>>) -> nat
    decreases steps.len(),
{
    if steps.len() == 0 {
        0
    } else if steps.last() is Add {
        additions(steps.drop_last()) + 1
    } else {
        additions(steps.drop_last())
    }
}

/// The number of extractions in a run that found an element to take.
pub open spec fn yields<T>(above: spec_fn(T, T) -> bool, steps: Seq<Step<T>>) -> nat
    decreases steps.len(),
{
    if steps.len() == 0 {
        0
    } else if steps.last() is Pull && replay(above, steps.drop_last()).len() > 0 {
        yields(above, steps.drop_last()) + 1
    } else {
        yields(above, steps.drop_last())
    }
}

/// The elements of a heap in the order in which repeated extraction
/// yields them.
pub open spec fn drained<T>(s: Seq<T>, above: spec_fn(T, T) -> bool) -> Seq<T>
    decreases s.len(),
    via drained_terminates::<T>
{
    if s.len() == 0 {
        Seq::empty()
    } else {
        seq![s[0]] + drained(crate::sift::extracted(s, above), above)
    }
}

#[via_fn]
proof fn drained_terminates<T>(s: Seq<T>, above: spec_fn(T, T) -> bool) {
    crate::sift::lemma_extracted(s, above);
}

/// After any run of steps the heap holds as many elements as were added,
/// less one for each extraction that found an element.
pub proof fn lemma_replay_len<T>(above: spec_fn(T, T) -> bool, steps: Seq<Step<T>>)
    ensures
        replay(above, steps).len() == additions(steps) - yields(above, steps),
    decreases steps.len(),
{
    if steps.len() > 0 {
        let before = replay(above, steps.drop_last());
        lemma_replay_len(above, steps.drop_last());
        match steps.last() {
            Step::Add(value) => {
                crate::sift::lemma_inserted(before, above, value);
            },
            Step::Pull => {
                crate::sift::lemma_extracted(before, above);
            },
        }
    }
}

/// Under a strict weak order the heap property holds after any run of
/// steps: no element should sit above the one at its parent.
pub proof fn lemma_replay_ordered<T>(above: spec_fn(T, T) -> bool, steps: Seq<Step<T>>)
    requires
        crate::order::strict_weak_order(above),
    ensures
        crate::sift::heap_ordered(replay(above, steps), above),
    decreases steps.len(),
{
    if steps.len() > 0 {
        let before = replay(above, steps.drop_last());
        lemma_replay_ordered(above, steps.drop_last());
        match steps.last() {
            Step::Add(value) => {
                crate::sift::lemma_inserted(before, above, value);
            },
            Step::Pull => {
                crate::sift::lemma_extracted(before, above);
            },
        }
    }
}

/// Draining yields every element of the heap, each as often as the heap
/// holds it, and then ends.
pub proof fn lemma_drained_permutes<T>(s: Seq<T>, above: spec_fn(T, T) -> bool)
    ensures
        drained(s, above).len() == s.len(),
        drained(s, above).to_multiset() == s.to_multiset(),
    decreases s.len(),
{
    broadcast use vstd::seq_lib::group_to_multiset_ensures;

    if s.len() > 0 {
        let rest = crate::sift::extracted(s, above);
        crate::sift::lemma_extracted(s, above);
        lemma_drained_permutes(rest, above);
        assert(drained(s, above) =~= drained(rest, above).insert(0, s[0]));
    }
}

/// Under a strict weak order a heap drains in order: no element that comes
/// out later should sit above one that came out before it.
pub proof fn lemma_drained_sorted<T>(s: Seq<T>, above: spec_fn(T, T) -> bool)
    requires
        crate::order::strict_weak_order(above),
        crate::sift::heap_ordered(s, above),
    ensures
        forall|i: int, j: int|
            0 <= i < j < drained(s, above).len() ==> !above(
                #[trigger] drained(s, above)[j],
                #[trigger] drained(s, above)[i],
            ),
    decreases s.len(),
{
    broadcast use vstd::seq_lib::group_to_multiset_ensures;

    if s.len() > 0 {
        let rest = crate::sift::extracted(s, above);
        let all = drained(s, above);
        crate::sift::lemma_extracted(s, above);
        lemma_drained_permutes(rest, above);
        lemma_drained_sorted(rest, above);
        assert forall|i: int, j: int| 0 <= i < j < all.len() implies !above(
            #[trigger] all[j],
            #[trigger] all[i],
        ) by {
            if i == 0 {
                // What comes out later was in the heap, below its root.
                assert(s.to_multiset().count(all[j]) > 0);
                let k = choose|k: int| 0 <= k < s.len() && s[k] == all[j];
                crate::sift::lemma_root_on_top(s, above, k + 1);
            }
        }
    }
}

} // verus!
