//! Decisions made when a graph runs: which topics each node listens to and
//! publishes on, which input message a node processes next, and where each
//! of a node's outputs is published.
//!
//! Running the nodes as tasks, subscribing and publishing are left to the
//! caller.

use vstd::prelude::*;
use super::ids::{NodeId, PortId};
use super::graph::{Edge, Graph};
use crate::segments::to_vec;

verus! {

/// How a node with several input ports reacts to its inputs.
#[derive(Debug, Clone)]
pub enum FanInMode {
    /// Process whichever input arrives first.
    EventDriven,
    /// Wait until every input port has a message, then process them together.
    Join,
    /// Check input ports in the given priority order.
    Priority(Vec<PortId>),
}

impl Default for FanInMode {
    fn default() -> (r: Self)
        ensures
            r is EventDriven,
    {
        FanInMode::EventDriven
    }
}

/// The (port, topic) pairs of the edges of node `id`, in edge order.
pub open spec fn edges_for(edges: Seq<Edge>, id: Seq<char>) -> Seq<(Seq<char>, Seq<u8>)>
    decreases edges.len(),
{
    if edges.len() == 0 {
        seq![]
    } else {
        edges_for(edges.drop_last(), id) + if edges.last().node.text() == id {
            seq![(edges.last().port.text(), edges.last().topic@)]
        } else {
            seq![]
        }
    }
}

/// The view of a list of (port, topic) pairs.
pub open spec fn port_topics_view(v: Seq<(PortId, Vec<u8>)>) -> Seq<(Seq<char>, Seq<u8>)> {
    v.map_values(|e: (PortId, Vec<u8>)| (e.0.text(), e.1@))
}

/// The topics one node listens to and publishes on.
pub struct NodeWiring {
    pub node: NodeId,
    pub inputs: Vec<(PortId, Vec<u8>)>,
    pub outputs: Vec<(PortId, Vec<u8>)>,
}

/// The (port, topic) pairs of the edges in `edges` that belong to `node`.
pub fn ports_of(edges: &Vec<Edge>, node: &NodeId) -> (r: Vec<(PortId, Vec<u8>)>)
    ensures
        port_topics_view(r@) == edges_for(edges@, node.text()),
{
    let mut r: Vec<(PortId, Vec<u8>)> = Vec::new();
    let mut i: usize = 0;
    while i < edges.len()
        invariant
            i <= edges@.len(),
            port_topics_view(r@) == edges_for(edges@.take(i as int), node.text()),
        decreases edges@.len() - i,
    {
        let ghost before = port_topics_view(r@);
        assert(edges@.take(i + 1).drop_last() =~= edges@.take(i as int));
        if edges[i].node.same_as(node) {
            let port = edges[i].port.clone();
            let topic = edges[i].topic.clone();
            assert(topic@ =~= edges@[i as int].topic@);
            r.push((port, topic));
            assert(port_topics_view(r@) =~= before.push((edges@[i as int].port.text(), edges@[i as int].topic@)));
        } else {
            assert(port_topics_view(r@) =~= before + Seq::<(Seq<char>, Seq<u8>)>::empty());
        }
        i = i + 1;
    }
    assert(edges@.take(edges@.len() as int) =~= edges@);
    r
}

/// The wiring of every node of `graph`, in node order: the input edges and
/// the output edges that name it.
pub fn wiring<N>(graph: &Graph<N>) -> (r: Vec<NodeWiring>)
    ensures
        r@.len() == graph.nodes_spec().len(),
        forall|i: int| 0 <= i < r@.len() ==> {
            &&& (#[trigger] r@[i]).node.text() == graph.nodes_spec()[i].0.text()
            &&& port_topics_view(r@[i].inputs@) == edges_for(graph.inputs_spec(), r@[i].node.text())
            &&& port_topics_view(r@[i].outputs@) == edges_for(graph.outputs_spec(), r@[i].node.text())
        },
{
    let ids = graph.node_ids();
    let (inputs, outputs) = graph_edges(graph);
    assert(ids@.map_values(|n: NodeId| n.text()).len() == ids@.len());
    assert(super::graph::ids_of(graph.nodes_spec()).len() == graph.nodes_spec().len());
    let mut r: Vec<NodeWiring> = Vec::new();
    let mut i: usize = 0;
    while i < ids.len()
        invariant
            i <= ids@.len(),
            ids@.map_values(|n: NodeId| n.text()) == super::graph::ids_of(graph.nodes_spec()),
            inputs@ == graph.inputs_spec(),
            outputs@ == graph.outputs_spec(),
            ids@.len() == graph.nodes_spec().len(),
            r@.len() == i,
            forall|k: int| 0 <= k < i ==> {
                &&& (#[trigger] r@[k]).node.text() == graph.nodes_spec()[k].0.text()
                &&& port_topics_view(r@[k].inputs@) == edges_for(graph.inputs_spec(), r@[k].node.text())
                &&& port_topics_view(r@[k].outputs@) == edges_for(graph.outputs_spec(), r@[k].node.text())
            },
        decreases ids@.len() - i,
    {
        let node = ids[i].clone();
        assert(node.text() == ids@.map_values(|n: NodeId| n.text())[i as int]);
        assert(super::graph::ids_of(graph.nodes_spec())[i as int] == graph.nodes_spec()[i as int].0.text());
        let ghost before = r@;
        let ins = ports_of(inputs, &node);
        let outs = ports_of(outputs, &node);
        r.push(NodeWiring { node, inputs: ins, outputs: outs });
        assert(forall|k: int| 0 <= k < i ==> r@[k] == before[k]);
        i = i + 1;
    }
    r
}

/// The input and output edges of a graph.
fn graph_edges<N>(graph: &Graph<N>) -> (r: (&Vec<Edge>, &Vec<Edge>))
    ensures
        r.0@ == graph.inputs_spec(),
        r.1@ == graph.outputs_spec(),
{
    graph.edges()
}

/// The topic of output port `port`: the last output edge with that port wins,
/// as when the pairs are collected into a map.
pub open spec fn output_topic(outputs: Seq<(Seq<char>, Seq<u8>)>, port: Seq<char>) -> Option<Seq<u8>>
    decreases outputs.len(),
{
    if outputs.len() == 0 {
        None
    } else if outputs.last().0 == port {
        Some(outputs.last().1)
    } else {
        output_topic(outputs.drop_last(), port)
    }
}

/// The topic on which output port `port` publishes, if it is wired.
pub fn lookup_output<'a>(outputs: &'a Vec<(PortId, Vec<u8>)>, port: &PortId) -> (r: Option<&'a Vec<u8>>)
    ensures
        match r {
            Some(t) => output_topic(port_topics_view(outputs@), port.text()) == Some(t@),
            None => output_topic(port_topics_view(outputs@), port.text()) is None,
        },
{
    let mut i: usize = outputs.len();
    assert(outputs@.take(i as int) =~= outputs@);
    while i > 0
        invariant
            i <= outputs@.len(),
            output_topic(port_topics_view(outputs@), port.text()) == output_topic(
                port_topics_view(outputs@.take(i as int)),
                port.text(),
            ),
        decreases i,
    {
        let ghost v = port_topics_view(outputs@.take(i as int));
        assert(v.last() == (outputs@[i - 1].0.text(), outputs@[i - 1].1@));
        assert(v.drop_last() =~= port_topics_view(outputs@.take(i - 1)));
        if outputs[i - 1].0.same_as(port) {
            return Some(&outputs[i - 1].1);
        }
        i = i - 1;
    }
    assert(port_topics_view(outputs@.take(0)) =~= Seq::<(Seq<char>, Seq<u8>)>::empty());
    None
}

/// What happens to one output a node emitted.
pub enum Route {
    /// Publish the payload on the topic.
    Publish { topic: Vec<u8>, payload: Vec<u8> },
    /// The port has no output edge; the payload is dropped.
    Drop { port: PortId },
}

/// Abstract view of a route.
pub enum RouteView {
    Publish { topic: Seq<u8>, payload: Seq<u8> },
    Drop { port: Seq<char> },
}

pub open spec fn route_view(r: Route) -> RouteView {
    match r {
        Route::Publish { topic, payload } => RouteView::Publish { topic: topic@, payload: payload@ },
        Route::Drop { port } => RouteView::Drop { port: port.text() },
    }
}

/// The route of an emitted (port, payload) pair.
pub open spec fn route_of(outputs: Seq<(Seq<char>, Seq<u8>)>, port: Seq<char>, payload: Seq<u8>) -> RouteView {
    match output_topic(outputs, port) {
        Some(t) => RouteView::Publish { topic: t, payload },
        None => RouteView::Drop { port },
    }
}

/// Routes the outputs a node emitted, in order: each goes to the topic of its
/// port, or is dropped when the port has no output edge.
pub fn route_outputs(outputs: &Vec<(PortId, Vec<u8>)>, emitted: Vec<(PortId, Vec<u8>)>) -> (r: Vec<Route>)
    ensures
        r@.len() == emitted@.len(),
        forall|i: int| 0 <= i < r@.len() ==> route_view(#[trigger] r@[i]) == route_of(
            port_topics_view(outputs@),
            emitted@[i].0.text(),
            emitted@[i].1@,
        ),
{
    let mut r: Vec<Route> = Vec::new();
    let mut i: usize = 0;
    while i < emitted.len()
        invariant
            i <= emitted@.len(),
            r@.len() == i,
            forall|k: int| 0 <= k < i ==> route_view(#[trigger] r@[k]) == route_of(
                port_topics_view(outputs@),
                emitted@[k].0.text(),
                emitted@[k].1@,
            ),
        decreases emitted@.len() - i,
    {
        let port = &emitted[i].0;
        let payload = to_vec(emitted[i].1.as_slice());
        match lookup_output(outputs, port) {
            Some(topic) => {
                let topic = to_vec(topic.as_slice());
                r.push(Route::Publish { topic, payload });
            },
            None => {
                r.push(Route::Drop { port: port.clone() });
            },
        }
        i = i + 1;
    }
    r
}

/// Per-port queues of a node's input messages (fan-in buffering).
pub struct InputBuffers {
    ports: Vec<PortId>,
    queues: Vec<Vec<Vec<u8>>>,
}

impl InputBuffers {
    /// The buffered ports, in order.
    pub closed spec fn ports_spec(&self) -> Seq<Seq<char>> {
        self.ports@.map_values(|p: PortId| p.text())
    }

    /// The queue of port number `k`, oldest first.
    pub closed spec fn queue(&self, k: int) -> Seq<Seq<u8>> {
        self.queues@[k]@.map_values(|v: Vec<u8>| v@)
    }

    /// One queue per port, ports distinct.
    pub closed spec fn wf(&self) -> bool {
        &&& self.ports@.len() == self.queues@.len()
        &&& self.ports_spec().no_duplicates()
    }

    /// Empty queues for the distinct ports among `input_ports`.
    pub fn new(input_ports: &Vec<PortId>) -> (r: Self)
        ensures
            r.wf(),
            forall|p: Seq<char>| #[trigger] r.ports_spec().contains(p) <==> input_ports@.map_values(|q: PortId| q.text()).contains(p),
            forall|k: int| 0 <= k < r.ports_spec().len() ==> #[trigger] r.queue(k) == Seq::<Seq<u8>>::empty(),
    {
        let mut r = InputBuffers { ports: Vec::new(), queues: Vec::new() };
        let ghost all = input_ports@.map_values(|q: PortId| q.text());
        let mut i: usize = 0;
        while i < input_ports.len()
            invariant
                i <= input_ports@.len(),
                all == input_ports@.map_values(|q: PortId| q.text()),
                r.wf(),
                forall|p: Seq<char>| #[trigger] r.ports_spec().contains(p) <==> all.take(i as int).contains(p),
                forall|k: int| 0 <= k < r.ports_spec().len() ==> #[trigger] r.queue(k) == Seq::<Seq<u8>>::empty(),
            decreases input_ports@.len() - i,
        {
            let ghost before = r.ports_spec();
            let ghost old_queues = r.queues@;
            let ghost old_r = r;
            assert(all.take(i + 1) =~= all.take(i as int).push(all[i as int]));
            assert(all[i as int] == input_ports@[i as int].text());
            let found = r.find(&input_ports[i]);
            if found.is_none() {
                r.ports.push(input_ports[i].clone());
                r.queues.push(Vec::new());
                proof {
                    assert(r.ports_spec() =~= before.push(all[i as int]));
                    assert forall|k: int| 0 <= k < r.ports_spec().len() implies #[trigger] r.queue(k) == Seq::<Seq<u8>>::empty() by {
                        if k == before.len() {
                            assert(r.queue(k) =~= Seq::<Seq<u8>>::empty());
                        } else {
                            assert(r.queues@[k] == old_queues[k]);
                            assert(old_r.queue(k) == Seq::<Seq<u8>>::empty());
                            assert(r.queue(k) == old_r.queue(k));
                        }
                    }
                    assert forall|x: Seq<char>| #[trigger] r.ports_spec().contains(x) <==> all.take(i + 1).contains(x) by {
                        if r.ports_spec().contains(x) {
                            let w = choose|w: int| 0 <= w < r.ports_spec().len() && #[trigger] r.ports_spec()[w] == x;
                            if w < before.len() {
                                assert(before[w] == x);
                                assert(before.contains(x));
                                let w2 = choose|w2: int| 0 <= w2 < i && #[trigger] all.take(i as int)[w2] == x;
                                assert(all.take(i + 1)[w2] == x);
                            } else {
                                assert(all.take(i + 1)[i as int] == x);
                            }
                        }
                        if all.take(i + 1).contains(x) {
                            let w = choose|w: int| 0 <= w < i + 1 && #[trigger] all.take(i + 1)[w] == x;
                            if w < i {
                                assert(all.take(i as int)[w] == x);
                                assert(before.contains(x));
                                let w2 = choose|w2: int| 0 <= w2 < before.len() && #[trigger] before[w2] == x;
                                assert(r.ports_spec()[w2] == x);
                            } else {
                                assert(r.ports_spec()[before.len() as int] == x);
                            }
                        }
                    }
                    assert(r.ports_spec().no_duplicates()) by {
                        assert(!before.contains(all[i as int]));
                    }
                }
            } else {
                proof {
                    assert(before.contains(all[i as int]));
                    assert forall|x: Seq<char>| #[trigger] r.ports_spec().contains(x) <==> all.take(i + 1).contains(x) by {
                        if all.take(i + 1).contains(x) {
                            let w = choose|w: int| 0 <= w < i + 1 && #[trigger] all.take(i + 1)[w] == x;
                            if w < i {
                                assert(all.take(i as int)[w] == x);
                            }
                        }
                        if r.ports_spec().contains(x) {
                            assert(all.take(i as int).contains(x));
                            let w2 = choose|w2: int| 0 <= w2 < i && #[trigger] all.take(i as int)[w2] == x;
                            assert(all.take(i + 1)[w2] == x);
                        }
                    }
                }
            }
            i = i + 1;
        }
        assert(all.take(input_ports@.len() as int) =~= all);
        r
    }

    /// The index of `port`, if buffered.
    fn find(&self, port: &PortId) -> (r: Option<usize>)
        requires
            self.wf(),
        ensures
            r matches Some(k) ==> k < self.ports_spec().len() && self.ports_spec()[k as int] == port.text(),
            r is None <==> !self.ports_spec().contains(port.text()),
    {
        let mut k: usize = 0;
        while k < self.ports.len()
            invariant
                self.wf(),
                k <= self.ports@.len(),
                forall|m: int| 0 <= m < k ==> #[trigger] self.ports_spec()[m] != port.text(),
            decreases self.ports@.len() - k,
        {
            assert(self.ports_spec()[k as int] == self.ports@[k as int].text());
            if self.ports[k].same_as(port) {
                return Some(k);
            }
            k = k + 1;
        }
        None
    }

    /// Buffers a message that arrived on `port` and returns the message to
    /// process now: the oldest one buffered for that port. A port that is not
    /// an input of the node buffers nothing and gives nothing.
    pub fn on_message(&mut self, port: &PortId, payload: Vec<u8>) -> (r: Option<Vec<u8>>)
        requires
            old(self).wf(),
        ensures
            final(self).wf(),
            final(self).ports_spec() == old(self).ports_spec(),
            !old(self).ports_spec().contains(port.text()) ==> r is None && forall|k: int| 0 <= k < old(self).ports_spec().len() ==> #[trigger] final(self).queue(k) == old(self).queue(k),
            old(self).ports_spec().contains(port.text()) ==> {
                let k = choose|k: int| 0 <= k < old(self).ports_spec().len() && old(self).ports_spec()[k] == port.text();
                let q = old(self).queue(k).push(payload@);
                &&& r matches Some(m) && m@ == q[0]
                &&& final(self).queue(k) == q.drop_first()
                &&& forall|j: int| 0 <= j < old(self).ports_spec().len() && j != k ==> #[trigger] final(self).queue(j) == old(self).queue(j)
            },
    {
        match self.find(port) {
            None => None,
            Some(k) => {
                let ghost old_self = *self;
                let ghost pv = payload@;
                proof {
                    let c = choose|c: int| 0 <= c < old_self.ports_spec().len() && old_self.ports_spec()[c] == port.text();
                    assert(c == k as int);
                }
                self.queues[k].push(payload);
                let m = self.queues[k].remove(0);
                proof {
                    let q = old_self.queue(k as int).push(pv);
                    assert(self.queue(k as int) =~= q.drop_first());
                    assert(m@ == q[0]);
                    assert(self.ports_spec() =~= old_self.ports_spec());
                    assert forall|j: int| 0 <= j < old_self.ports_spec().len() && j != k implies #[trigger] self.queue(j) == old_self.queue(j) by {}
                }
                Some(m)
            },
        }
    }
}

/// Whether an edge names node `id`.
pub open spec fn names_node(id: Seq<char>) -> spec_fn(Edge) -> bool {
    |e: Edge| e.node.text() == id
}

/// The (port, topic) pair of an edge.
pub open spec fn port_topic_of() -> spec_fn(Edge) -> (Seq<char>, Seq<u8>) {
    |e: Edge| (e.port.text(), e.topic@)
}

/// Wiring law: the ports of a node are one (port, topic) pair for every
/// edge that names the node, in edge order, and nothing else; in particular
/// there are exactly as many pairs as edges naming the node, and several
/// edges on one port are all kept. An edge added last adds its pair last
/// when it names the node, and nothing otherwise.
pub proof fn lemma_ports_are_the_nodes_edges(edges: Seq<Edge>, id: Seq<char>, e: Edge)
    ensures
        edges_for(edges, id) == edges.filter(names_node(id)).map_values(port_topic_of()),
        edges_for(edges, id).len() == edges.filter(names_node(id)).len(),
        e.node.text() == id ==> edges_for(edges.push(e), id) == edges_for(edges, id).push(
            (e.port.text(), e.topic@),
        ),
        e.node.text() != id ==> edges_for(edges.push(e), id) == edges_for(edges, id),
    decreases edges.len(),
{
    lemma_edges_for_filter(edges, id);
    lemma_edges_for_filter(edges.push(e), id);
    assert(edges.push(e).drop_last() =~= edges);
    assert(edges.push(e).last() == e);
    if e.node.text() == id {
        assert(edges_for(edges.push(e), id) =~= edges_for(edges, id).push((e.port.text(), e.topic@)));
    } else {
        assert(edges_for(edges.push(e), id) =~= edges_for(edges, id));
    }
}

proof fn lemma_edges_for_filter(edges: Seq<Edge>, id: Seq<char>)
    ensures
        edges_for(edges, id) == edges.filter(names_node(id)).map_values(port_topic_of()),
    decreases edges.len(),
{
    if edges.len() > 0 {
        lemma_edges_for_filter(edges.drop_last(), id);
        let sub = edges.drop_last().filter(names_node(id));
        reveal(Seq::filter);
        assert(edges.filter(names_node(id)) == if names_node(id)(edges.last()) {
            sub.push(edges.last())
        } else {
            sub
        });
        if edges.last().node.text() == id {
            assert(sub.push(edges.last()).map_values(port_topic_of()) =~= sub.map_values(
                port_topic_of(),
            ).push((edges.last().port.text(), edges.last().topic@)));
            assert(edges_for(edges, id) =~= edges_for(edges.drop_last(), id).push(
                (edges.last().port.text(), edges.last().topic@),
            ));
        } else {
            assert(edges_for(edges, id) =~= edges_for(edges.drop_last(), id));
        }
    } else {
        reveal(Seq::filter);
        assert(edges.filter(names_node(id)).map_values(port_topic_of()) =~= Seq::<(Seq<char>, Seq<u8>)>::empty());
    }
}

} // verus!
