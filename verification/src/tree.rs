//! A small binary tree of 64-bit integers, built by chaining: a fresh
//! node is a bare root, and `left` and `right` hang a subtree (or
//! anything convertible into one) under it.

use vstd::prelude::*;

verus! {

use vstd::std_specs::convert::IntoSpec;

/// One tree node: a value and two optional subtrees.
#[derive(Debug)]
pub struct Tree {
    pub root: i64,
    pub left: Option<Box<Tree>>,
    pub right: Option<Box<Tree>>,
}

impl Default for Tree {
    /// The default node holds zero and no subtrees.
    fn default() -> (r: Tree)
        ensures
            r.root == 0,
            r.left is None,
            r.right is None,
    {
        Tree::new(0)
    }
}

impl From<i64> for Tree {
    fn from(val: i64) -> (r: Tree) {
        Tree::new(val)
    }
}

impl vstd::std_specs::convert::FromSpecImpl<i64> for Tree {
    open spec fn obeys_from_spec() -> bool {
        true
    }

    open spec fn from_spec(val: i64) -> Tree {
        Tree { root: val, left: None, right: None }
    }
}

impl Tree {
    /// A bare node holding `root`.
    pub fn new(root: i64) -> (r: Tree)
        ensures
            r.root == root,
            r.left is None,
            r.right is None,
    {
        Tree { root, left: None, right: None }
    }

    /// Hang `leaf` as the left subtree, keeping everything else.
    pub fn left<T: Into<Tree>>(self, leaf: T) -> (r: Self)
        ensures
            r.root == self.root,
            r.right == self.right,
            r.left matches Some(t) && (<T as IntoSpec<Tree>>::obeys_into_spec() ==> *t == <T as IntoSpec<Tree>>::into_spec(leaf)),
    {
        let mut node = self;
        node.left = Some(Box::new(leaf.into()));
        node
    }

    /// Hang `leaf` as the right subtree, keeping everything else.
    pub fn right<T: Into<Tree>>(self, leaf: T) -> (r: Self)
        ensures
            r.root == self.root,
            r.left == self.left,
            r.right matches Some(t) && (<T as IntoSpec<Tree>>::obeys_into_spec() ==> *t == <T as IntoSpec<Tree>>::into_spec(leaf)),
    {
        let mut node = self;
        node.right = Some(Box::new(leaf.into()));
        node
    }
}

/// A bare node holding `val`, the seed of a chained build.
pub fn root(val: i64) -> (r: Tree)
    ensures
        r.root == val,
        r.left is None,
        r.right is None,
{
    Tree::new(val)
}

} // verus!
