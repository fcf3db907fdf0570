//! Orderings for the heap: what it means for one element to sit above
//! another, the two natural orderings, and an adapter for closures.

use core::cmp::Ordering;
use vstd::prelude::*;
use vstd::std_specs::cmp::{PartialEqSpec, PartialOrdSpec};

verus! {

/// A binary predicate on elements, read as "`a` should sit above `b`".
///
/// The heap never compares elements itself; it only asks its comparator.
pub trait Comparator<T> {
    /// The relation that `compare` decides: `relation()(a, b)` holds when
    /// `a` should sit above `b`.
    spec fn relation(&self) -> spec_fn(T, T) -> bool;

    /// Holds when `compare` may be asked about every pair of elements.
    spec fn wf(&self) -> bool;

    /// Decides whether `a` should sit above `b`.
    fn compare(&self, a: &T, b: &T) -> (r: bool)
        requires
            self.wf(),
        ensures
            r == (self.relation())(*a, *b),
    ;
}

/// The natural ordering with the least element on top: `a` sits above `b`
/// when `a < b`.
#[derive(Clone, Copy, Debug)]
pub struct Ascending;

/// The natural ordering with the greatest element on top: `a` sits above
/// `b` when `a > b`.
#[derive(Clone, Copy, Debug)]
pub struct Descending;

impl<T: Ord> Comparator<T> for Ascending {
    open spec fn relation(&self) -> spec_fn(T, T) -> bool {
        |a: T, b: T| a.partial_cmp_spec(&b) == Some(Ordering::Less)
    }

    open spec fn wf(&self) -> bool {
        T::obeys_partial_cmp_spec()
    }

    fn compare(&self, a: &T, b: &T) -> (r: bool) {
        *a < *b
    }
}

impl<T: Ord> Comparator<T> for Descending {
    open spec fn relation(&self) -> spec_fn(T, T) -> bool {
        |a: T, b: T| a.partial_cmp_spec(&b) == Some(Ordering::Greater)
    }

    open spec fn wf(&self) -> bool {
        T::obeys_partial_cmp_spec()
    }

    fn compare(&self, a: &T, b: &T) -> (r: bool) {
        *a > *b
    }
}

/// Holds when `f` accepts every pair and its answer is a function of the
/// pair alone.
pub open spec fn is_predicate<T, F: Fn(&T, &T) -> bool>(f: F) -> bool {
    &&& forall|a: T, b: T| #[trigger] call_requires(f, (&a, &b))
    &&& forall|a: T, b: T, r1: bool, r2: bool|
        #![trigger call_ensures(f, (&a, &b), r1), call_ensures(f, (&a, &b), r2)]
        call_ensures(f, (&a, &b), r1) && call_ensures(f, (&a, &b), r2) ==> r1 == r2
}

/// Holds when `f` accepts every pair and answers `relation`.
pub open spec fn decides<T, F: Fn(&T, &T) -> bool>(f: F, relation: spec_fn(T, T) -> bool) -> bool {
    &&& forall|a: T, b: T| #[trigger] call_requires(f, (&a, &b))
    &&& forall|a: T, b: T, r: bool| #[trigger] call_ensures(f, (&a, &b), r) ==> r == relation(a, b)
}

/// A comparator made of a closure or a function, together with the
/// relation that the function is taken to decide.
#[verifier::reject_recursive_types(T)]
pub struct ByFn<T, F> {
    decide: F,
    meaning: Ghost<spec_fn(T, T) -> bool>,
}

impl<T, F: Fn(&T, &T) -> bool> ByFn<T, F> {
    /// The wrapped function.
    pub closed spec fn func(&self) -> F {
        self.decide
    }

    /// The relation that the wrapped function is taken to decide.
    pub closed spec fn meaning(&self) -> spec_fn(T, T) -> bool {
        self.meaning@
    }

    /// Wraps `decide` so that a heap can be ordered by it: `a` sits above
    /// `b` when `decide(a, b)` may answer `true`. The comparator can be
    /// asked when `decide` is a predicate.
    pub fn new(decide: F) -> (c: Self)
        ensures
            c.func() == decide,
            c.relation() == (|a: T, b: T| call_ensures(decide, (&a, &b), true)),
            c.wf() == is_predicate::<T, F>(decide),
    {
        let ghost meaning = |a: T, b: T| call_ensures(decide, (&a, &b), true);
        let c = ByFn { decide, meaning: Ghost(meaning) };
        assert(c.wf() == is_predicate::<T, F>(decide));
        c
    }

    /// Wraps `decide` for callers who can say what it computes: `a` sits
    /// above `b` when `relation(a, b)` holds.
    pub fn with_relation(decide: F, Ghost(relation): Ghost<spec_fn(T, T) -> bool>) -> (c: Self)
        requires
            decides(decide, relation),
        ensures
            c.func() == decide,
            c.relation() == relation,
            c.wf(),
    {
        ByFn { decide, meaning: Ghost(relation) }
    }
}

impl<T, F: Fn(&T, &T) -> bool> Comparator<T> for ByFn<T, F> {
    open spec fn relation(&self) -> spec_fn(T, T) -> bool {
        self.meaning()
    }

    open spec fn wf(&self) -> bool {
        decides(self.func(), self.meaning())
    }

    fn compare(&self, a: &T, b: &T) -> (r: bool) {
        (self.decide)(a, b)
    }
}

/// Holds when `above` is a strict weak order: nothing sits above itself,
/// the relation is transitive, and so is its complement.
pub open spec fn strict_weak_order<T>(above: spec_fn(T, T) -> bool) -> bool {
    &&& forall|x: T| !#[trigger] above(x, x)
    &&& forall|x: T, y: T, z: T|
        #![trigger above(x, y), above(y, z)]
        above(x, y) && above(y, z) ==> above(x, z)
    &&& forall|x: T, y: T, z: T|
        #![trigger above(x, y), above(y, z)]
        !above(x, y) && !above(y, z) ==> !above(x, z)
}

/// Under the laws of a total order any two elements compare as less, equal
/// or greater.
proof fn lemma_total<T: Ord>(x: T, y: T)
    requires
        vstd::laws_cmp::obeys_cmp::<T>(),
    ensures
        x.partial_cmp_spec(&y) == Some(Ordering::Less) || x.partial_cmp_spec(&y) == Some(
            Ordering::Equal,
        ) || x.partial_cmp_spec(&y) == Some(Ordering::Greater),
{
    reveal(vstd::laws_cmp::obeys_cmp_ord);
}

/// On a type whose comparisons obey the laws of a total order, `<` is a
/// strict weak order.
pub proof fn lemma_ascending_is_strict_weak_order<T: Ord>()
    requires
        vstd::laws_cmp::obeys_cmp::<T>(),
    ensures
        strict_weak_order(Comparator::<T>::relation(&Ascending)),
{
    reveal(vstd::laws_cmp::obeys_partial_cmp_spec_properties);
    reveal(vstd::laws_cmp::obeys_cmp_ord);
    reveal(vstd::laws_eq::obeys_eq_spec_properties);
    let above = Comparator::<T>::relation(&Ascending);
    assert forall|x: T, y: T, z: T|
        #![trigger above(x, y), above(y, z)]
        !above(x, y) && !above(y, z) implies !above(x, z) by {
        if above(x, z) {
            lemma_total::<T>(x, y);
            lemma_total::<T>(y, z);
        }
    }
}

/// On a type whose comparisons obey the laws of a total order, `>` is a
/// strict weak order.
pub proof fn lemma_descending_is_strict_weak_order<T: Ord>()
    requires
        vstd::laws_cmp::obeys_cmp::<T>(),
    ensures
        strict_weak_order(Comparator::<T>::relation(&Descending)),
{
    reveal(vstd::laws_cmp::obeys_partial_cmp_spec_properties);
    reveal(vstd::laws_cmp::obeys_cmp_ord);
    reveal(vstd::laws_eq::obeys_eq_spec_properties);
    let above = Comparator::<T>::relation(&Descending);
    assert forall|x: T, y: T, z: T|
        #![trigger above(x, y), above(y, z)]
        !above(x, y) && !above(y, z) implies !above(x, z) by {
        if above(x, z) {
            lemma_total::<T>(x, y);
            lemma_total::<T>(y, z);
        }
    }
}

} // verus!
