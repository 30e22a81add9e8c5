//! A plain tree of nodes, kept for grouping bodies hierarchically.

use vstd::prelude::*;

verus! {

/// A node of the grouping tree, owning its children.
#[derive(Debug)]
pub struct TreeNode {
    pub children: Vec<TreeNode>,
}

} // verus!
