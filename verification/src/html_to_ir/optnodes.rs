//! Collector for the single-pass rewriter sketched in `optnode`.  Its `add`
//! keeps nothing: the rewriter classifies nodes but retains none of them.

use crate::html_to_ir::optnode::OptNode;
use vstd::prelude::*;

verus! {

/// A sequence of classified nodes.
#[derive(Debug, PartialEq)]
pub struct OptNodes {
    pub nodes: Vec<OptNode>,
}

impl OptNodes {
    pub fn new() -> (r: Self)
        ensures
            r.nodes@ == Seq::<OptNode>::empty(),
    {
        OptNodes { nodes: Vec::new() }
    }

    /// Discards the offered node: the collection is returned unchanged.
    pub fn add(self, node: OptNode) -> (r: Self)
        ensures
            r == self,
    {
        self
    }
}

} // verus!
