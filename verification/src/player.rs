use crate::graph::Graph;
use crate::sample::Sample;
use vstd::prelude::*;

verus! {

/// Musical time at the start of a block, handed unchanged to every node.
#[derive(Clone, Copy, PartialEq, Debug)]
pub struct PlayHead<T> {
    pub upper: u8,
    pub lower: u8,
    pub div: u8,
    pub samples_per_quarter: T,
    pub samples_from_last_bar: T,
}

/// Holds the graph that a host drives block by block.
#[verifier::reject_recursive_types(T)]
pub struct GraphPlayer<T: Sample> {
    pub graph: Graph<T>,
}

impl<T: Sample> GraphPlayer<T> {
    pub fn new(graph: Graph<T>) -> (p: Self)
        ensures
            p.graph == graph,
    {
        GraphPlayer { graph }
    }
}

} // verus!
