//! A binary search tree that keeps one representative of every class of
//! elements that compare as equal.

use core::cmp::Ordering;
use vstd::prelude::*;
use vstd::std_specs::cmp::{OrdSpec, PartialEqSpec, PartialOrdSpec};

verus! {

/// `a` compares as less than `b`.
pub open spec fn precedes<T: Ord>(a: T, b: T) -> bool {
    a.cmp_spec(&b) == Ordering::Less
}

/// `a` compares as greater than `b`.
pub open spec fn follows<T: Ord>(a: T, b: T) -> bool {
    a.cmp_spec(&b) == Ordering::Greater
}

/// `a` compares as equal to `b`.
pub open spec fn ties<T: Ord>(a: T, b: T) -> bool {
    a.cmp_spec(&b) == Ordering::Equal
}

/// Some element of `elements` compares as equal to `value`.
pub open spec fn matched<T: Ord>(elements: Set<T>, value: T) -> bool {
    exists|x: T| elements.contains(x) && #[trigger] ties(value, x)
}

/// `elements` after `value` has been offered: it joins them unless one of
/// them compares as equal to it.
pub open spec fn offered<T: Ord>(elements: Set<T>, value: T) -> Set<T> {
    if matched(elements, value) {
        elements
    } else {
        elements.insert(value)
    }
}

/// An element that ties with `v` stands to `y` as `v` does.
proof fn lemma_ties_share_side<T: Ord>(v: T, x: T, y: T)
    requires
        vstd::laws_cmp::obeys_cmp::<T>(),
        ties(v, x),
    ensures
        precedes(v, y) ==> precedes(x, y),
        follows(v, y) ==> follows(x, y),
{
    reveal(vstd::laws_cmp::obeys_partial_cmp_spec_properties);
    reveal(vstd::laws_cmp::obeys_cmp_ord);
    reveal(vstd::laws_cmp::obeys_cmp_partial_ord);
    reveal(vstd::laws_eq::obeys_eq_spec_properties);
    assert(v.partial_cmp_spec(&x) == Some(Ordering::Equal));
    assert(v.eq_spec(&x));
    assert(x.eq_spec(&v));
    if precedes(v, y) {
        assert(v.partial_cmp_spec(&y) == Some(Ordering::Less));
        if x.cmp_spec(&y) == Ordering::Greater {
            assert(x.partial_cmp_spec(&y) == Some(Ordering::Greater));
            assert(y.partial_cmp_spec(&x) == Some(Ordering::Less));
            assert(v.partial_cmp_spec(&x) == Some(Ordering::Less));
        } else if x.cmp_spec(&y) == Ordering::Equal {
            assert(x.partial_cmp_spec(&y) == Some(Ordering::Equal));
            assert(x.eq_spec(&y));
            assert(v.eq_spec(&y));
            assert(v.partial_cmp_spec(&y) == Some(Ordering::Equal));
        }
    }
    if follows(v, y) {
        assert(v.partial_cmp_spec(&y) == Some(Ordering::Greater));
        if x.cmp_spec(&y) == Ordering::Less {
            assert(x.partial_cmp_spec(&y) == Some(Ordering::Less));
            assert(y.partial_cmp_spec(&x) == Some(Ordering::Greater));
            assert(v.partial_cmp_spec(&x) == Some(Ordering::Greater));
        } else if x.cmp_spec(&y) == Ordering::Equal {
            assert(x.partial_cmp_spec(&y) == Some(Ordering::Equal));
            assert(x.eq_spec(&y));
            assert(v.eq_spec(&y));
            assert(v.partial_cmp_spec(&y) == Some(Ordering::Equal));
        }
    }
}

/// A node of the tree with the subtrees of the lesser and of the greater
/// elements.
#[derive(Debug)]
pub struct TreeNode<T: Ord> {
    value: T,
    left: Option<Box<TreeNode<T>>>,
    right: Option<Box<TreeNode<T>>>,
}

/// A binary search tree.
#[derive(Debug)]
pub struct BinarySearchTree<T: Ord> {
    root: Option<Box<TreeNode<T>>>,
}

impl<T: Ord> TreeNode<T> {
    /// The elements below and at `link`.
    pub closed spec fn elements_of(link: Option<Box<TreeNode<T>>>) -> Set<T>
        decreases link,
    {
        match link {
            None => Set::empty(),
            Some(node) => node.elements(),
        }
    }

    /// The elements in this node and its subtrees.
    pub closed spec fn elements(&self) -> Set<T>
        decreases self,
    {
        Self::elements_of(self.left).union(Self::elements_of(self.right)).insert(self.value)
    }

    /// The subtree at `link` is a search tree.
    pub closed spec fn ordered_at(link: Option<Box<TreeNode<T>>>) -> bool
        decreases link,
    {
        match link {
            None => true,
            Some(node) => node.ordered(),
        }
    }

    /// Lesser elements are to the left, greater ones to the right, in this
    /// node and in every node below it.
    pub closed spec fn ordered(&self) -> bool
        decreases self,
    {
        &&& forall|x: T| Self::elements_of(self.left).contains(x) ==> precedes(x, self.value)
        &&& forall|x: T| Self::elements_of(self.right).contains(x) ==> follows(x, self.value)
        &&& Self::ordered_at(self.left)
        &&& Self::ordered_at(self.right)
    }

    /// A leaf that holds `value`.
    pub fn new(value: T) -> (node: Self)
        ensures
            node.elements() == Set::<T>::empty().insert(value),
            node.ordered(),
    {
        let node = TreeNode { value, left: None, right: None };
        assert(node.elements() =~= Set::<T>::empty().insert(value));
        node
    }

    /// Offers `value` to the subtree: it is stored unless an element that
    /// compares as equal is there already.
    pub fn insert(&mut self, value: T)
        requires
            vstd::laws_cmp::obeys_cmp::<T>(),
            old(self).ordered(),
        ensures
            final(self).ordered(),
            final(self).elements() == offered(old(self).elements(), value),
        decreases *old(self),
    {
        proof {
            reveal(vstd::laws_cmp::obeys_cmp_ord);
        }
        match value.cmp(&self.value) {
            Ordering::Less => {
                proof {
                    Self::lemma_side(*self, value);
                }
                match self.left {
                    Some(ref mut left) => left.insert(value),
                    None => self.left = Some(Box::new(TreeNode::new(value))),
                }
                proof {
                    assert(self.elements() =~= offered(old(self).elements(), value));
                    assert forall|x: T| Self::elements_of(self.left).contains(x) implies precedes(
                        x,
                        self.value,
                    ) by {
                        if !Self::elements_of(old(self).left).contains(x) {
                            assert(x == value);
                        }
                    }
                }
            },
            Ordering::Greater => {
                proof {
                    Self::lemma_side(*self, value);
                }
                match self.right {
                    Some(ref mut right) => right.insert(value),
                    None => self.right = Some(Box::new(TreeNode::new(value))),
                }
                proof {
                    assert(self.elements() =~= offered(old(self).elements(), value));
                    assert forall|x: T| Self::elements_of(self.right).contains(x) implies follows(
                        x,
                        self.value,
                    ) by {
                        if !Self::elements_of(old(self).right).contains(x) {
                            assert(x == value);
                        }
                    }
                }
            },
            Ordering::Equal => {
                proof {
                    assert(ties(value, self.value));
                    assert(self.elements().contains(self.value));
                }
            },
        }
    }

    /// Only the side of the node on which `value` belongs can hold an
    /// element that compares as equal to it.
    proof fn lemma_side(node: Self, value: T)
        requires
            vstd::laws_cmp::obeys_cmp::<T>(),
            node.ordered(),
        ensures
            precedes(value, node.value) ==> matched(node.elements(), value) == matched(
                Self::elements_of(node.left),
                value,
            ),
            follows(value, node.value) ==> matched(node.elements(), value) == matched(
                Self::elements_of(node.right),
                value,
            ),
            ties(value, node.value) ==> matched(node.elements(), value),
    {
        reveal(vstd::laws_cmp::obeys_partial_cmp_spec_properties);
        reveal(vstd::laws_cmp::obeys_cmp_ord);
        let y = node.value;
        let lesser = Self::elements_of(node.left);
        let greater = Self::elements_of(node.right);
        assert(y.partial_cmp_spec(&y) == Some(y.cmp_spec(&y)));
        assert(!precedes(y, y) && !follows(y, y));
        if matched(node.elements(), value) {
            let x = choose|x: T| node.elements().contains(x) && #[trigger] ties(value, x);
            lemma_ties_share_side(value, x, y);
            assert(lesser.contains(x) || greater.contains(x) || x == y);
            if greater.contains(x) {
                assert(follows(x, y));
            }
            if lesser.contains(x) {
                assert(precedes(x, y));
            }
        }
        if matched(lesser, value) {
            let x = choose|x: T| lesser.contains(x) && #[trigger] ties(value, x);
            assert(node.elements().contains(x));
        }
        if matched(greater, value) {
            let x = choose|x: T| greater.contains(x) && #[trigger] ties(value, x);
            assert(node.elements().contains(x));
        }
        if ties(value, y) {
            assert(node.elements().contains(y));
        }
    }
}

impl<T: Ord> View for BinarySearchTree<T> {
    type V = Set<T>;

    /// The stored elements.
    closed spec fn view(&self) -> Set<T> {
        TreeNode::<T>::elements_of(self.root)
    }
}

impl<T: Ord> BinarySearchTree<T> {
    /// The invariant of the tree: it is a search tree.
    pub closed spec fn wf(&self) -> bool {
        TreeNode::<T>::ordered_at(self.root)
    }

    /// An empty tree.
    pub fn new() -> (tree: Self)
        ensures
            tree.wf(),
            tree@ == Set::<T>::empty(),
    {
        BinarySearchTree { root: None }
    }

    /// Offers `value` to the tree: it is stored unless an element that
    /// compares as equal is there already.
    pub fn insert(&mut self, value: T)
        requires
            vstd::laws_cmp::obeys_cmp::<T>(),
            old(self).wf(),
        ensures
            final(self).wf(),
            final(self)@ == offered(old(self)@, value),
    {
        match self.root {
            Some(ref mut root) => root.insert(value),
            None => {
                self.root = Some(Box::new(TreeNode::new(value)));
                assert(!matched(old(self)@, value));
            },
        }
    }

    /// Whether the tree holds an element that compares as equal to
    /// `value`.
    pub fn search(&self, value: T) -> (found: bool)
        requires
            vstd::laws_cmp::obeys_cmp::<T>(),
            self.wf(),
        ensures
            found == matched(self@, value),
    {
        Self::search_in_node(&self.root, &value)
    }

    fn search_in_node(node: &Option<Box<TreeNode<T>>>, value: &T) -> (found: bool)
        requires
            vstd::laws_cmp::obeys_cmp::<T>(),
            TreeNode::<T>::ordered_at(*node),
        ensures
            found == matched(TreeNode::<T>::elements_of(*node), *value),
        decreases node,
    {
        proof {
            reveal(vstd::laws_cmp::obeys_cmp_ord);
        }
        match node {
            None => false,
            Some(boxed_node) => {
                proof {
                    TreeNode::<T>::lemma_side(**boxed_node, *value);
                }
                match value.cmp(&boxed_node.value) {
                    Ordering::Less => Self::search_in_node(&boxed_node.left, value),
                    Ordering::Greater => Self::search_in_node(&boxed_node.right, value),
                    Ordering::Equal => true,
                }
            },
        }
    }
}

} // verus!
