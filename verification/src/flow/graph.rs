//! Graph definition: nodes and the topic-backed edges that connect them.

use vstd::prelude::*;
use super::ids::{NodeId, PortId};

verus! {

/// One input or output connection of a node, bound to a topic.
#[derive(Debug, Clone)]
pub struct Edge {
    pub node: NodeId,
    pub port: PortId,
    pub topic: Vec<u8>,
}

/// Abstract view of an edge: node text, port text, topic bytes.
pub open spec fn edge_view(e: Edge) -> (Seq<char>, Seq<char>, Seq<u8>) {
    (e.node.text(), e.port.text(), e.topic@)
}

/// Why a graph could not be built.
#[derive(Debug, Clone)]
pub enum GraphError {
    /// An edge names a node that was never added.
    UnknownNode(NodeId),
}

impl GraphError {
    /// The node named in the error.
    pub open spec fn node_text(&self) -> Seq<char> {
        match self {
            GraphError::UnknownNode(id) => id.text(),
        }
    }
}

/// Texts of the node ids of a node list.
pub open spec fn ids_of<N>(nodes: Seq<(NodeId, N)>) -> Seq<Seq<char>> {
    nodes.map_values(|e: (NodeId, N)| e.0.text())
}

/// The edges of `edges` whose node is not in `ids`, as indices, in order:
/// the first of them is the one `build` reports.
pub open spec fn first_unknown(ids: Seq<Seq<char>>, edges: Seq<Edge>) -> Option<int> {
    if exists|i: int| 0 <= i < edges.len() && !ids.contains(#[trigger] edges[i].node.text()) {
        Some(choose|i: int| 0 <= i < edges.len() && !ids.contains(#[trigger] edges[i].node.text())
            && forall|j: int| 0 <= j < i ==> ids.contains(#[trigger] edges[j].node.text()))
    } else {
        None
    }
}

/// A validated graph: every edge names a node of the graph. `N` is the
/// type of the nodes' computations.
pub struct Graph<N> {
    nodes: Vec<(NodeId, N)>,
    input_edges: Vec<Edge>,
    output_edges: Vec<Edge>,
}

/// Builder for [`Graph`]: add nodes, then wire their ports to topics.
pub struct GraphBuilder<N> {
    nodes: Vec<(NodeId, N)>,
    input_edges: Vec<Edge>,
    output_edges: Vec<Edge>,
}

impl<N> Graph<N> {
    /// The nodes, in the order their ids were first added.
    pub closed spec fn nodes_spec(&self) -> Seq<(NodeId, N)> {
        self.nodes@
    }

    pub closed spec fn inputs_spec(&self) -> Seq<Edge> {
        self.input_edges@
    }

    pub closed spec fn outputs_spec(&self) -> Seq<Edge> {
        self.output_edges@
    }

    /// Node ids are distinct and every edge names one of them.
    pub closed spec fn wf(&self) -> bool {
        &&& ids_of(self.nodes@).no_duplicates()
        &&& forall|i: int| 0 <= i < self.input_edges@.len() ==> ids_of(self.nodes@).contains(
            #[trigger] self.input_edges@[i].node.text(),
        )
        &&& forall|i: int| 0 <= i < self.output_edges@.len() ==> ids_of(self.nodes@).contains(
            #[trigger] self.output_edges@[i].node.text(),
        )
    }

    pub fn builder() -> (r: GraphBuilder<N>)
        ensures
            r.wf(),
            r.nodes_spec().len() == 0,
            r.inputs_spec().len() == 0,
            r.outputs_spec().len() == 0,
    {
        GraphBuilder::new()
    }

    /// The node ids, each once.
    pub fn node_ids(&self) -> (r: Vec<NodeId>)
        ensures
            r@.map_values(|n: NodeId| n.text()) == ids_of(self.nodes_spec()),
    {
        let mut r: Vec<NodeId> = Vec::new();
        let mut i: usize = 0;
        while i < self.nodes.len()
            invariant
                i <= self.nodes@.len(),
                r@.map_values(|n: NodeId| n.text()) == ids_of(self.nodes@).take(i as int),
            decreases self.nodes@.len() - i,
        {
            let id = self.nodes[i].0.clone();
            assert(id.text() == self.nodes@[i as int].0.text());
            r.push(id);
            assert(ids_of(self.nodes@).take(i + 1) =~= ids_of(self.nodes@).take(i as int).push(self.nodes@[i as int].0.text()));
            assert(r@.map_values(|n: NodeId| n.text()) =~= ids_of(self.nodes@).take(i as int).push(self.nodes@[i as int].0.text()));
            i = i + 1;
        }
        assert(ids_of(self.nodes@).take(i as int) =~= ids_of(self.nodes@));
        r
    }

    /// The input and output edges.
    pub fn edges(&self) -> (r: (&Vec<Edge>, &Vec<Edge>))
        ensures
            r.0@ == self.inputs_spec(),
            r.1@ == self.outputs_spec(),
    {
        (&self.input_edges, &self.output_edges)
    }

    /// Gives up the graph's parts: nodes, input edges and output edges.
    pub fn into_parts(self) -> (r: (Vec<(NodeId, N)>, Vec<Edge>, Vec<Edge>))
        ensures
            r.0@ == self.nodes_spec(),
            r.1@ == self.inputs_spec(),
            r.2@ == self.outputs_spec(),
    {
        (self.nodes, self.input_edges, self.output_edges)
    }
}

impl<N> GraphBuilder<N> {
    pub closed spec fn nodes_spec(&self) -> Seq<(NodeId, N)> {
        self.nodes@
    }

    pub closed spec fn inputs_spec(&self) -> Seq<Edge> {
        self.input_edges@
    }

    pub closed spec fn outputs_spec(&self) -> Seq<Edge> {
        self.output_edges@
    }

    /// Node ids are distinct.
    pub closed spec fn wf(&self) -> bool {
        ids_of(self.nodes@).no_duplicates()
    }

    pub fn new() -> (r: Self)
        ensures
            r.wf(),
            r.nodes_spec().len() == 0,
            r.inputs_spec().len() == 0,
            r.outputs_spec().len() == 0,
    {
        let r = GraphBuilder { nodes: Vec::new(), input_edges: Vec::new(), output_edges: Vec::new() };
        assert(ids_of(r.nodes@) =~= Seq::<Seq<char>>::empty());
        r
    }

    /// Registers `node` under `id`; a node already registered under the
    /// same id is replaced, keeping its place.
    pub fn node(self, id: NodeId, node: N) -> (r: Self)
        requires
            self.wf(),
        ensures
            r.wf(),
            r.inputs_spec() == self.inputs_spec(),
            r.outputs_spec() == self.outputs_spec(),
            ids_of(self.nodes_spec()).contains(id.text()) ==> {
                &&& r.nodes_spec().len() == self.nodes_spec().len()
                &&& ids_of(r.nodes_spec()) == ids_of(self.nodes_spec())
                &&& forall|j: int| 0 <= j < self.nodes_spec().len() ==> if #[trigger] self.nodes_spec()[j].0.text() == id.text() {
                    r.nodes_spec()[j].1 == node
                } else {
                    r.nodes_spec()[j] == self.nodes_spec()[j]
                }
            },
            !ids_of(self.nodes_spec()).contains(id.text()) ==> r.nodes_spec() == self.nodes_spec().push((id, node)),
    {
        let mut b = self;
        let ghost old_b = b;
        let ghost ids = ids_of(b.nodes@);
        let ghost old_nodes = b.nodes@;
        let mut k: usize = 0;
        while k < b.nodes.len()
            invariant
                b == old_b,
                old_b == self,
                ids.no_duplicates(),
                k <= b.nodes@.len(),
                ids == ids_of(b.nodes@),
                old_nodes == b.nodes@,
                forall|j: int| 0 <= j < k ==> #[trigger] ids[j] != id.text(),
            decreases b.nodes@.len() - k,
        {
            assert(ids[k as int] == b.nodes@[k as int].0.text());
            if b.nodes[k].0.same_as(&id) {
                let old_id = b.nodes[k].0.clone();
                b.nodes.set(k, (old_id, node));
                proof {
                    assert(ids_of(b.nodes@) =~= ids);
                    assert forall|j: int| 0 <= j < old_nodes.len() implies if #[trigger] old_nodes[j].0.text() == id.text() {
                        b.nodes@[j].1 == node
                    } else {
                        b.nodes@[j] == old_nodes[j]
                    } by {
                        if old_nodes[j].0.text() == id.text() {
                            assert(ids[j] == ids[k as int]);
                            assert(j == k as int);
                        }
                    }
                }
                return b;
            }
            k = k + 1;
        }
        assert(!ids.contains(id.text()));
        b.nodes.push((id, node));
        assert(ids_of(b.nodes@) =~= ids.push(id.text()));
        b
    }

    /// Subscribes port `port` of node `node` to `topic`.
    pub fn input(self, node: NodeId, port: PortId, topic: Vec<u8>) -> (r: Self)
        ensures
            r.nodes_spec() == self.nodes_spec(),
            r.outputs_spec() == self.outputs_spec(),
            r.inputs_spec() == self.inputs_spec().push(Edge { node, port, topic }),
            self.wf() ==> r.wf(),
    {
        let mut b = self;
        b.input_edges.push(Edge { node, port, topic });
        b
    }

    /// Publishes port `port` of node `node` on `topic`.
    pub fn output(self, node: NodeId, port: PortId, topic: Vec<u8>) -> (r: Self)
        ensures
            r.nodes_spec() == self.nodes_spec(),
            r.inputs_spec() == self.inputs_spec(),
            r.outputs_spec() == self.outputs_spec().push(Edge { node, port, topic }),
            self.wf() ==> r.wf(),
    {
        let mut b = self;
        b.output_edges.push(Edge { node, port, topic });
        b
    }

    /// The first edge in `edges` whose node is not registered.
    fn check_edges(&self, edges: &Vec<Edge>) -> (r: Option<usize>)
        ensures
            r matches Some(i) ==> i < edges@.len() && first_unknown(ids_of(self.nodes@), edges@) == Some(i as int),
            r is None ==> first_unknown(ids_of(self.nodes@), edges@) is None,
    {
        let ghost ids = ids_of(self.nodes@);
        let mut i: usize = 0;
        while i < edges.len()
            invariant
                i <= edges@.len(),
                ids == ids_of(self.nodes@),
                forall|j: int| 0 <= j < i ==> ids.contains(#[trigger] edges@[j].node.text()),
            decreases edges@.len() - i,
        {
            let mut found = false;
            let mut k: usize = 0;
            while k < self.nodes.len()
                invariant
                    k <= self.nodes@.len(),
                    ids == ids_of(self.nodes@),
                    i < edges@.len(),
                    found ==> ids.contains(edges@[i as int].node.text()),
                    !found ==> forall|m: int| 0 <= m < k ==> #[trigger] ids[m] != edges@[i as int].node.text(),
                decreases self.nodes@.len() - k,
            {
                assert(ids[k as int] == self.nodes@[k as int].0.text());
                if self.nodes[k].0.same_as(&edges[i].node) {
                    found = true;
                    assert(ids.contains(edges@[i as int].node.text()));
                }
                k = k + 1;
            }
            if !found {
                proof {
                    assert(!ids.contains(edges@[i as int].node.text()));
                    let c = choose|c: int| 0 <= c < edges@.len() && !ids.contains(#[trigger] edges@[c].node.text())
                        && forall|j: int| 0 <= j < c ==> ids.contains(#[trigger] edges@[j].node.text());
                    if c < i as int {
                    } else if c > i as int {
                        assert(ids.contains(edges@[i as int].node.text()));
                    }
                }
                return Some(i);
            }
            i = i + 1;
        }
        None
    }

    /// Finalizes the graph. Fails on the first edge (inputs first, then
    /// outputs) that names a node that was never added.
    pub fn build(self) -> (r: Result<Graph<N>, GraphError>)
        requires
            self.wf(),
        ensures
            match r {
                Ok(g) => {
                    &&& first_unknown(ids_of(self.nodes_spec()), self.inputs_spec()) is None
                    &&& first_unknown(ids_of(self.nodes_spec()), self.outputs_spec()) is None
                    &&& g.wf()
                    &&& g.nodes_spec() == self.nodes_spec()
                    &&& g.inputs_spec() == self.inputs_spec()
                    &&& g.outputs_spec() == self.outputs_spec()
                },
                Err(e) => match first_unknown(ids_of(self.nodes_spec()), self.inputs_spec()) {
                    Some(i) => e.node_text() == self.inputs_spec()[i].node.text(),
                    None => match first_unknown(ids_of(self.nodes_spec()), self.outputs_spec()) {
                        Some(i) => e.node_text() == self.outputs_spec()[i].node.text(),
                        None => false,
                    },
                },
            },
    {
        match self.check_edges(&self.input_edges) {
            Some(i) => {
                return Err(GraphError::UnknownNode(self.input_edges[i].node.clone()));
            },
            None => {},
        }
        match self.check_edges(&self.output_edges) {
            Some(i) => {
                return Err(GraphError::UnknownNode(self.output_edges[i].node.clone()));
            },
            None => {},
        }
        proof {
            assert forall|i: int| 0 <= i < self.input_edges@.len() implies ids_of(self.nodes@).contains(
                #[trigger] self.input_edges@[i].node.text()) by {
                if !ids_of(self.nodes@).contains(self.input_edges@[i].node.text()) {
                    assert(exists|i: int| 0 <= i < self.input_edges@.len() && !ids_of(self.nodes@).contains(#[trigger] self.input_edges@[i].node.text()));
                }
            }
            assert forall|i: int| 0 <= i < self.output_edges@.len() implies ids_of(self.nodes@).contains(
                #[trigger] self.output_edges@[i].node.text()) by {
                if !ids_of(self.nodes@).contains(self.output_edges@[i].node.text()) {
                    assert(exists|i: int| 0 <= i < self.output_edges@.len() && !ids_of(self.nodes@).contains(#[trigger] self.output_edges@[i].node.text()));
                }
            }
        }
        Ok(Graph { nodes: self.nodes, input_edges: self.input_edges, output_edges: self.output_edges })
    }
}

impl<N> Default for GraphBuilder<N> {
    fn default() -> (r: Self)
        ensures
            r.wf(),
            r.nodes_spec().len() == 0,
            r.inputs_spec().len() == 0,
            r.outputs_spec().len() == 0,
    {
        GraphBuilder::new()
    }
}

} // verus!
