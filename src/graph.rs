use vstd::prelude::*;

use crate::compiler::Request;
use crate::vocabulary::{nodes_wf, Keyword, NoKeyword, Node};

verus! {

/// A `$ref` bound to the node it names.
#[derive(Debug)]
pub struct Reference {
    /// The reference as written.
    pub target: Vec<char>,
    /// The node whose location is `target`.
    pub node: usize,
}

/// The compiled schema: a table of nodes addressed by index, so that a
/// reference may name its own node or an ancestor without an ownership cycle.
#[derive(Debug)]
pub struct JsonSchemaValidator<K = NoKeyword> {
    pub nodes: Vec<Node>,
    pub references: Vec<Reference>,
    pub root: usize,
    /// The caller's keywords that the schema uses, one per occurrence.
    pub keywords: Vec<K>,
    /// What each of those keywords was built from.
    pub requests: Vec<Request>,
}

/// Every index in range, and every reference bound to a node whose location
/// is what the reference names.
pub open spec fn graph_wf(nodes: Seq<Node>, references: Seq<Reference>, root: usize) -> bool {
    &&& nodes_wf(nodes, nodes.len(), references.len())
    &&& root < nodes.len()
    &&& forall|i: int| 0 <= i < references.len() ==> {
        &&& #[trigger] references[i].node < nodes.len()
        &&& nodes[references[i].node as int].location@ == references[i].target@
    }
}

impl<K: Keyword> JsonSchemaValidator<K> {
    pub open spec fn wf(&self) -> bool {
        graph_wf(self.nodes@, self.references@, self.root)
    }

    /// Assembles a validator from a compiled table.
    pub fn new(
        nodes: Vec<Node>,
        references: Vec<Reference>,
        root: usize,
        keywords: Vec<K>,
        requests: Vec<Request>,
    ) -> (r: Self)
        requires
            graph_wf(nodes@, references@, root),
        ensures
            r.nodes == nodes,
            r.references == references,
            r.root == root,
            r.keywords == keywords,
            r.requests == requests,
            r.wf(),
    {
        JsonSchemaValidator { nodes, references, root, keywords, requests }
    }
}

} // verus!
