//! What an Ethereum node can be asked for beyond the basic API.

use crate::text;
use vstd::prelude::*;

verus! {

/// The optional services of an Ethereum node: answers about old states, and call traces.
#[derive(Clone, Copy, Debug, PartialEq, Eq, Structural)]
pub struct NodeCapabilities {
    pub archive: bool,
    pub traces: bool,
}

impl NodeCapabilities {
    /// Whether a node with these capabilities serves every request that needs `required`.
    pub open spec fn covers(self, required: NodeCapabilities) -> bool {
        &&& required.archive ==> self.archive
        &&& required.traces ==> self.traces
    }

    /// How many capabilities there are; a node with fewer is the cheaper one to ask.
    pub open spec fn cost(self) -> nat {
        (if self.archive {
            1nat
        } else {
            0
        }) + (if self.traces {
            1nat
        } else {
            0
        })
    }

    /// The capabilities that a comma-separated list of names grants.
    pub open spec fn named_in(list: Seq<char>) -> NodeCapabilities {
        NodeCapabilities {
            archive: text::split(list, ',').contains("archive"@),
            traces: text::split(list, ',').contains("traces"@),
        }
    }

    /// Every capability.
    pub open spec fn every() -> NodeCapabilities {
        NodeCapabilities { archive: true, traces: true }
    }

    /// Every capability: what a node is taken to have when its description does not say.
    pub fn all() -> (capabilities: NodeCapabilities)
        ensures
            capabilities == NodeCapabilities::every(),
    {
        NodeCapabilities { archive: true, traces: true }
    }

    /// No capability: what a request needs that any node can serve.
    pub fn none() -> (capabilities: NodeCapabilities)
        ensures
            !capabilities.archive,
            !capabilities.traces,
    {
        NodeCapabilities { archive: false, traces: false }
    }

    /// Reads a comma-separated list of `archive` and `traces`. A name must match exactly;
    /// any other name in the list grants nothing.
    pub fn parse(list: &str) -> (capabilities: NodeCapabilities)
        ensures
            capabilities == NodeCapabilities::named_in(list@),
    {
        let names = text::split_on(list, ',');
        NodeCapabilities { archive: lists(&names, "archive"), traces: lists(&names, "traces") }
    }

    /// Whether a node with these capabilities serves every request that needs `required`.
    pub fn meets(&self, required: &NodeCapabilities) -> (enough: bool)
        ensures
            enough == self.covers(*required),
    {
        (!required.archive || self.archive) && (!required.traces || self.traces)
    }

    /// The number of capabilities.
    pub fn count(&self) -> (n: u8)
        ensures
            n == self.cost(),
    {
        match (self.archive, self.traces) {
            (true, true) => 2,
            (false, false) => 0,
            _ => 1,
        }
    }
}

/// Whether one of `names` is `name`.
fn lists(names: &Vec<String>, name: &str) -> (found: bool)
    ensures
        found == text::views(names@).contains(name@),
{
    let mut i: usize = 0;
    while i < names.len()
        invariant
            i <= names.len(),
            forall|j: int| 0 <= j < i ==> text::views(names@)[j] != name@,
        decreases names.len() - i,
    {
        if text::same(names[i].as_str(), name) {
            assert(text::views(names@)[i as int] == name@);
            return true;
        }
        i = i + 1;
    }
    false
}

/// Covering is a partial order: a node covers its own capabilities, covering carries over, and
/// two nodes that cover each other have the same capabilities.
pub proof fn covering_is_a_partial_order(
    a: NodeCapabilities,
    b: NodeCapabilities,
    c: NodeCapabilities,
)
    ensures
        a.covers(a),
        a.covers(b) && b.covers(c) ==> a.covers(c),
        a.covers(b) && b.covers(a) ==> a == b,
{
}

/// A node that covers another costs at least as much, and strictly more unless the two have the
/// same capabilities.
pub proof fn covering_costs(a: NodeCapabilities, b: NodeCapabilities)
    requires
        a.covers(b),
    ensures
        a.cost() >= b.cost(),
        a.cost() == b.cost() ==> a == b,
{
}

} // verus!
