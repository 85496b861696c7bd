//! Declarative graph definitions (as loaded from YAML) and their validation.
//!
//! Reading and writing the YAML text is left to the caller; this module
//! holds the definition and checks that its edges name defined nodes.

use vstd::prelude::*;
use vstd::string::*;
use serde_yaml::Value;

verus! {

/// Declares `serde_yaml::Value` (a node's free-form configuration) to the
/// verifier as an opaque type: it is carried through, never inspected.
#[verifier::external_type_specification]
#[verifier::external_body]
pub struct ExYamlValue(Value);

/// A graph definition: nodes and the topics connecting their ports.
#[derive(Debug)]
pub struct YamlGraph {
    pub nodes: Vec<YamlNode>,
    pub edges: Vec<YamlEdge>,
}

/// A node definition.
#[derive(Debug)]
pub struct YamlNode {
    /// Unique identifier of the node.
    pub id: String,
    /// Node type, for instantiation by a factory.
    pub node_type: String,
    /// Free-form configuration of the node.
    pub config: Value,
}

/// A connection from an output port of one node to an input port of another.
#[derive(Debug, Clone)]
pub struct YamlEdge {
    pub from_node: String,
    pub from_port: String,
    pub to_node: String,
    pub to_port: String,
    /// Topic that carries the messages of this edge.
    pub topic: String,
}

/// Why a graph definition is invalid.
#[derive(Debug, Clone)]
pub enum YamlGraphError {
    /// An edge's `from_node` is not a defined node.
    UnknownFromNode(String),
    /// An edge's `to_node` is not a defined node.
    UnknownToNode(String),
}

impl YamlGraphError {
    pub open spec fn message_spec(&self) -> Seq<char> {
        match self {
            YamlGraphError::UnknownFromNode(n) => "edge references unknown from_node: "@ + n@,
            YamlGraphError::UnknownToNode(n) => "edge references unknown to_node: "@ + n@,
        }
    }

    /// The text of the error.
    pub fn message(&self) -> (r: String)
        ensures
            r@ == self.message_spec(),
    {
        match self {
            YamlGraphError::UnknownFromNode(n) => {
                let mut s = String::from_str("edge references unknown from_node: ");
                s.append(n.as_str());
                s
            },
            YamlGraphError::UnknownToNode(n) => {
                let mut s = String::from_str("edge references unknown to_node: ");
                s.append(n.as_str());
                s
            },
        }
    }
}

/// Whether edge `e` names defined nodes at both ends.
pub open spec fn edge_known(ids: Seq<Seq<char>>, e: YamlEdge) -> bool {
    ids.contains(e.from_node@) && ids.contains(e.to_node@)
}

/// What validating a definition reports: for the first edge with an unknown
/// end, its `from_node` when unknown, else its `to_node`.
pub open spec fn validation_outcome(ids: Seq<Seq<char>>, edges: Seq<YamlEdge>) -> Option<(bool, Seq<char>)>
    decreases edges.len(),
{
    if edges.len() == 0 {
        None
    } else {
        let e = edges[0];
        if !ids.contains(e.from_node@) {
            Some((true, e.from_node@))
        } else if !ids.contains(e.to_node@) {
            Some((false, e.to_node@))
        } else {
            validation_outcome(ids, edges.drop_first())
        }
    }
}

impl YamlGraph {
    /// The ids of the defined nodes.
    pub open spec fn node_ids(&self) -> Seq<Seq<char>> {
        self.nodes@.map_values(|n: YamlNode| n.id@)
    }

    /// Whether `id` names a defined node.
    fn has_node(&self, id: &String) -> (r: bool)
        ensures
            r == self.node_ids().contains(id@),
    {
        let mut i: usize = 0;
        while i < self.nodes.len()
            invariant
                i <= self.nodes@.len(),
                forall|k: int| 0 <= k < i ==> #[trigger] self.node_ids()[k] != id@,
            decreases self.nodes@.len() - i,
        {
            assert(self.node_ids()[i as int] == self.nodes@[i as int].id@);
            if self.nodes[i].id == *id {
                return true;
            }
            i = i + 1;
        }
        false
    }

    /// Checks that every edge names defined nodes at both ends. Reports the
    /// first edge that does not: its `from_node` when that is unknown, else
    /// its `to_node`.
    pub fn validate(&self) -> (r: Result<(), YamlGraphError>)
        ensures
            match validation_outcome(self.node_ids(), self.edges@) {
                None => r is Ok,
                Some((true, n)) => r matches Err(YamlGraphError::UnknownFromNode(m)) && m@ == n,
                Some((false, n)) => r matches Err(YamlGraphError::UnknownToNode(m)) && m@ == n,
            },
    {
        let mut i: usize = 0;
        assert(self.edges@.skip(0) =~= self.edges@);
        while i < self.edges.len()
            invariant
                i <= self.edges@.len(),
                validation_outcome(self.node_ids(), self.edges@) == validation_outcome(
                    self.node_ids(),
                    self.edges@.skip(i as int),
                ),
            decreases self.edges@.len() - i,
        {
            let ghost rest = self.edges@.skip(i as int);
            assert(rest[0] == self.edges@[i as int]);
            assert(rest.drop_first() =~= self.edges@.skip(i + 1));
            let edge = &self.edges[i];
            if !self.has_node(&edge.from_node) {
                return Err(YamlGraphError::UnknownFromNode(edge.from_node.clone()));
            }
            if !self.has_node(&edge.to_node) {
                return Err(YamlGraphError::UnknownToNode(edge.to_node.clone()));
            }
            i = i + 1;
        }
        assert(self.edges@.skip(i as int).len() == 0);
        Ok(())
    }
}

/// Validation law: a definition is accepted exactly when every edge names
/// defined nodes at both ends.
pub proof fn lemma_validation_accepts_exactly_known_edges(ids: Seq<Seq<char>>, edges: Seq<YamlEdge>)
    ensures
        validation_outcome(ids, edges) is None <==> forall|i: int| 0 <= i < edges.len() ==> edge_known(ids, #[trigger] edges[i]),
    decreases edges.len(),
{
    if edges.len() > 0 {
        lemma_validation_accepts_exactly_known_edges(ids, edges.drop_first());
        if forall|i: int| 0 <= i < edges.len() ==> edge_known(ids, #[trigger] edges[i]) {
            assert(edge_known(ids, edges[0]));
            assert forall|i: int| 0 <= i < edges.drop_first().len() implies edge_known(ids, #[trigger] edges.drop_first()[i]) by {
                assert(edges.drop_first()[i] == edges[i + 1]);
                assert(edge_known(ids, edges[i + 1]));
            }
        }
        if validation_outcome(ids, edges) is None {
            assert forall|i: int| 0 <= i < edges.len() implies edge_known(ids, #[trigger] edges[i]) by {
                if i > 0 {
                    assert(edges[i] == edges.drop_first()[i - 1]);
                }
            }
        }
    }
}

} // verus!
