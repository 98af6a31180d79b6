use std::collections::HashMap;
use vstd::prelude::*;

verus! {

/// One node of the context tree.
#[derive(Debug)]
pub enum Node {
    /// A terminal scalar; it takes no part in matching.
    Value(i32),
    /// An inner level: children keyed by the token of a context word.
    Branch(HashMap<i32, Node>),
    /// Candidate continuations: each a sequence of tokens to render as a phrase.
    List(Vec<Vec<i32>>),
}

/// The node that an optional reference leads to, if any.
pub open spec fn node_of(node: Option<&Node>) -> Option<Node> {
    match node {
        Some(n) => Some(*n),
        None => None,
    }
}

} // verus!
