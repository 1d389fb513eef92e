//! The start-up settings of a node.
use vstd::prelude::*;

verus! {

/// How a node starts: the seed of its identity, the address of a node to
/// join, and the port to listen on (0 lets the system pick one).
#[derive(Debug, Clone, PartialEq, Eq)]
pub struct Args {
    pub seed: Option<String>,
    pub bootstrap: Option<String>,
    pub port: u16,
}

} // verus!
