use vstd::prelude::*;

use crate::keyed::Keyed;

verus! {

/// A node of a binary search tree: a value and its two owned subtrees.
pub struct TreeNode<T: Keyed> {
    pub value: T,
    pub left: Option<Box<TreeNode<T>>>,
    pub right: Option<Box<TreeNode<T>>>,
}

/// A binary search tree ordered by the values' keys; duplicates are kept
/// out, so the tree represents a set of keys.
pub struct BinarySearchTree<T: Keyed> {
    pub root: Option<Box<TreeNode<T>>>,
}

/// The set of keys held in an optional subtree.
pub open spec fn opt_keys<T: Keyed>(node_opt: Option<Box<TreeNode<T>>>) -> Set<int>
    decreases node_opt,
{
    match node_opt {
        None => Set::empty(),
        Some(node) => node.keys(),
    }
}

/// Well-formedness of an optional subtree.
pub open spec fn opt_wf<T: Keyed>(node_opt: Option<Box<TreeNode<T>>>) -> bool
    decreases node_opt,
{
    match node_opt {
        None => true,
        Some(node) => node.wf(),
    }
}

impl<T: Keyed> TreeNode<T> {
    /// The set of keys held in this subtree.
    pub open spec fn keys(self) -> Set<int>
        decreases self,
    {
        opt_keys(self.left).union(opt_keys(self.right)).insert(self.value.key())
    }

    /// The search-tree ordering: every key on the left is strictly below
    /// this node's key, every key on the right strictly above, recursively.
    pub open spec fn wf(self) -> bool
        decreases self,
    {
        &&& (forall|k: int| #[trigger] opt_keys(self.left).contains(k) ==> k < self.value.key())
        &&& (forall|k: int| #[trigger] opt_keys(self.right).contains(k) ==> k > self.value.key())
        &&& opt_wf(self.left)
        &&& opt_wf(self.right)
    }

    /// A leaf holding `value` alone.
    pub fn new(value: T) -> (r: Self)
        ensures
            r.wf(),
            r.keys() == Set::empty().insert(value.key()),
    {
        let r = TreeNode { value, left: None, right: None };
        proof {
            assert(r.keys() =~= Set::empty().insert(r.value.key()));
        }
        r
    }

    /// Inserts `value` into an optional subtree, growing a leaf when the
    /// subtree is empty. A value whose key is already present is dropped.
    fn insert_into_optional(node_opt: &mut Option<Box<TreeNode<T>>>, value: T)
        requires
            opt_wf(*old(node_opt)),
        ensures
            opt_wf(*final(node_opt)),
            opt_keys(*final(node_opt)) == opt_keys(*old(node_opt)).insert(value.key()),
        decreases *old(node_opt),
    {
        match node_opt.take() {
            None => {
                *node_opt = Some(Box::new(TreeNode::new(value)));
                proof {
                    assert(opt_keys(*node_opt) =~= opt_keys(*old(node_opt)).insert(value.key()));
                }
            },
            Some(mut boxed) => {
                (&mut *boxed).insert(value);
                *node_opt = Some(boxed);
            },
        }
    }

    /// Inserts `value` into this subtree, keeping the search-tree ordering;
    /// a value whose key is already present leaves the tree unchanged.
    pub fn insert(&mut self, value: T)
        requires
            old(self).wf(),
        ensures
            final(self).wf(),
            final(self).keys() == old(self).keys().insert(value.key()),
        decreases *old(self),
    {
        let go_left = value.le(&self.value);
        if go_left && self.value.le(&value) {
            // The key is already here: keep the tree as it is.
            proof {
                assert(self.keys() =~= old(self).keys().insert(value.key()));
            }
        } else if go_left {
            Self::insert_into_optional(&mut self.left, value);
            proof {
                assert(self.keys() =~= old(self).keys().insert(value.key()));
            }
        } else {
            Self::insert_into_optional(&mut self.right, value);
            proof {
                assert(self.keys() =~= old(self).keys().insert(value.key()));
            }
        }
    }

    /// Looks `value`'s key up in an optional subtree.
    fn search_in_optional(node_opt: &Option<Box<TreeNode<T>>>, value: T) -> (r: bool)
        requires
            opt_wf(*node_opt),
        ensures
            r == opt_keys(*node_opt).contains(value.key()),
        decreases *node_opt,
    {
        match node_opt {
            None => false,
            Some(node) => node.search(value),
        }
    }

    /// Reports whether `value`'s key is held in this subtree.
    pub fn search(&self, value: T) -> (r: bool)
        requires
            self.wf(),
        ensures
            r == self.keys().contains(value.key()),
        decreases *self,
    {
        let le_here = value.le(&self.value);
        if le_here && self.value.le(&value) {
            true
        } else if le_here {
            proof {
                assert(!opt_keys(self.right).contains(value.key()));
            }
            Self::search_in_optional(&self.left, value)
        } else {
            proof {
                assert(!opt_keys(self.left).contains(value.key()));
            }
            Self::search_in_optional(&self.right, value)
        }
    }
}

impl<T: Keyed> BinarySearchTree<T> {
    /// The set of keys held in the tree.
    pub open spec fn keys(self) -> Set<int> {
        opt_keys(self.root)
    }

    /// Well-formedness: the root subtree keeps the search-tree ordering.
    pub open spec fn wf(self) -> bool {
        opt_wf(self.root)
    }

    /// Returns an empty tree.
    pub fn new() -> (r: Self)
        ensures
            r.wf(),
            r.keys() == Set::<int>::empty(),
    {
        BinarySearchTree { root: None }
    }

    /// Inserts `value`; a value whose key is already present is dropped.
    pub fn insert(&mut self, value: T)
        requires
            old(self).wf(),
        ensures
            final(self).wf(),
            final(self).keys() == old(self).keys().insert(value.key()),
    {
        TreeNode::insert_into_optional(&mut self.root, value);
    }

    /// Reports whether `value`'s key is held in the tree.
    pub fn search(&self, value: T) -> (r: bool)
        requires
            self.wf(),
        ensures
            r == self.keys().contains(value.key()),
    {
        TreeNode::search_in_optional(&self.root, value)
    }
}

} // verus!
