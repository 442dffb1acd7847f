//! The RF node graph as the editor holds it: an `egui_snarl` graph of [`RfNode`]s, and the rules
//! by which it is wired.
//!
//! Nodes are named by the number inside their `egui_snarl::NodeId`. What the graph holds is named
//! by [`node_table`] and [`wire_set`]; the functions that call into `egui_snarl` say what each
//! call does to them.

use vstd::prelude::*;
use egui_snarl::{InPinId, NodeId, OutPinId, Snarl};
use crate::graph::{closes_loop, ChainGraph, GraphNode, OutPort};
use crate::nodes::{RfNode, SourceType};
use crate::noise::{fnv1a, name_seed};
use crate::signal::{SignalGenerator, Tone};
use crate::text::{chars_of, numeral, numeral_is_injective};
use crate::units::Micro;

verus! {

/// `egui_snarl::Snarl`, the graph container, carried as an opaque value.
#[verifier::external_type_specification]
#[verifier::external_body]
#[verifier::reject_recursive_types(T)]
pub struct ExSnarl<T>(egui_snarl::Snarl<T>);

/// An input pin of a node.
#[derive(Clone, Copy, Debug, PartialEq, Eq, Structural)]
pub struct InPort {
    pub node: usize,
    pub input: usize,
}

/// The nodes of a graph by their number.
pub uninterp spec fn node_table(snarl: Snarl<RfNode>) -> Map<usize, RfNode>;

/// The wires of a graph, each from an output to an input.
pub uninterp spec fn wire_set(snarl: Snarl<RfNode>) -> Set<(OutPort, InPort)>;

// ---------------------------------------------------------------------------
// Calls into egui_snarl
// ---------------------------------------------------------------------------

/// `Snarl::node_ids`: the numbers of all nodes, each once, in rising order.
#[verifier::external_body]
fn node_ids(snarl: &Snarl<RfNode>) -> (ids: Vec<usize>)
    ensures
        forall|i: int, j: int| 0 <= i < j < ids.len() ==> #[trigger] ids[i] < #[trigger] ids[j],
        forall|i: int| 0 <= i < ids.len() ==> node_table(*snarl).contains_key(#[trigger] ids[i]),
        forall|id: usize| #[trigger] node_table(*snarl).contains_key(id) ==> ids@.contains(id),
{
    snarl.node_ids().map(|(id, _)| id.0).collect()
}

/// `Snarl::get_node`: the node with a number, if there is one.
#[verifier::external_body]
fn get_node(snarl: &Snarl<RfNode>, id: usize) -> (node: Option<&RfNode>)
    ensures
        node is Some <==> node_table(*snarl).contains_key(id),
        node is Some ==> *node->0 == node_table(*snarl)[id],
{
    snarl.get_node(NodeId(id))
}

/// `Snarl::in_pin`: every output that is wired to an input, in an order that is left open.
#[verifier::external_body]
fn remotes(snarl: &Snarl<RfNode>, node: usize, input: usize) -> (list: Vec<OutPort>)
    ensures
        forall|from: OutPort|
            list@.contains(from) <==> #[trigger] wire_set(*snarl).contains(
                (from, (InPort { node, input })),
            ),
{
    let pins = snarl.in_pin(InPinId { node: NodeId(node), input }).remotes;
    pins.into_iter().map(|pin| OutPort { node: pin.node.0, port: pin.output }).collect()
}

/// `Snarl::drop_outputs`: removes every wire that leaves an output. The node must exist.
#[verifier::external_body]
fn drop_outputs(snarl: &mut Snarl<RfNode>, from: OutPort)
    requires
        node_table(*old(snarl)).contains_key(from.node),
    ensures
        node_table(*final(snarl)) == node_table(*old(snarl)),
        wire_set(*final(snarl)) == wire_set(*old(snarl)).filter(
            |wire: (OutPort, InPort)| wire.0 != from,
        ),
{
    snarl.drop_outputs(OutPinId { node: NodeId(from.node), output: from.port });
}

/// `Snarl::drop_inputs`: removes every wire that arrives at an input. The node must exist.
#[verifier::external_body]
fn drop_inputs(snarl: &mut Snarl<RfNode>, to: InPort)
    requires
        node_table(*old(snarl)).contains_key(to.node),
    ensures
        node_table(*final(snarl)) == node_table(*old(snarl)),
        wire_set(*final(snarl)) == wire_set(*old(snarl)).filter(
            |wire: (OutPort, InPort)| wire.1 != to,
        ),
{
    snarl.drop_inputs(InPinId { node: NodeId(to.node), input: to.input });
}

/// `Snarl::connect`: adds a wire; true if it was not there. Both nodes must exist.
#[verifier::external_body]
fn add_wire(snarl: &mut Snarl<RfNode>, from: OutPort, to: InPort) -> (added: bool)
    requires
        node_table(*old(snarl)).contains_key(from.node),
        node_table(*old(snarl)).contains_key(to.node),
    ensures
        node_table(*final(snarl)) == node_table(*old(snarl)),
        wire_set(*final(snarl)) == wire_set(*old(snarl)).insert((from, to)),
        added == !wire_set(*old(snarl)).contains((from, to)),
{
    snarl.connect(
        OutPinId { node: NodeId(from.node), output: from.port },
        InPinId { node: NodeId(to.node), input: to.input },
    )
}

/// `egui_snarl::NodeId`'s `Debug` form: the type's name and the number in brackets.
#[verifier::external_body]
fn node_name(id: usize) -> (name: String)
    ensures
        name@ == "NodeId("@ + numeral(id as nat) + ")"@,
{
    format!("{:?}", NodeId(id))
}

// ---------------------------------------------------------------------------
// The wiring in terms of nodes and wires
// ---------------------------------------------------------------------------

/// No input is driven by two outputs.
pub open spec fn one_driver_per_input(wires: Set<(OutPort, InPort)>) -> bool {
    forall|a: OutPort, b: OutPort, to: InPort| #[trigger]
        wires.contains((a, to)) && #[trigger] wires.contains((b, to)) ==> a == b
}

/// No output drives two inputs.
pub open spec fn one_load_per_output(wires: Set<(OutPort, InPort)>) -> bool {
    forall|from: OutPort, a: InPort, b: InPort| #[trigger]
        wires.contains((from, a)) && #[trigger] wires.contains((from, b)) ==> a == b
}

/// A wire of the graph runs from `from` to `to`, and both ends exist.
pub open spec fn joins(snarl: Snarl<RfNode>, from: OutPort, to: InPort) -> bool {
    &&& wire_set(snarl).contains((from, to))
    &&& node_table(snarl).contains_key(from.node)
    &&& node_table(snarl).contains_key(to.node)
    &&& to.input < node_table(snarl)[to.node].inputs()
}

/// A wire runs from some output of `from` to some input of `to`. Wires to inputs that the node
/// no longer has, and wires that hang loose at an end, do not count.
pub open spec fn wired(snarl: Snarl<RfNode>, from: usize, to: usize) -> bool {
    exists|out: OutPort, into: InPort| #[trigger]
        joins(snarl, out, into) && out.node == from && into.node == to
}

/// Each node of the walk is wired to the next.
pub open spec fn wired_walk(snarl: Snarl<RfNode>, walk: Seq<usize>) -> bool {
    forall|i: int| 0 <= i < walk.len() - 1 ==> wired(snarl, #[trigger] walk[i], walk[i + 1])
}

/// A signal leaving `from` arrives at `to` over the wires; a node reaches itself.
pub open spec fn wired_through(snarl: Snarl<RfNode>, from: usize, to: usize) -> bool {
    exists|walk: Seq<usize>|
        {
            &&& walk.len() > 0
            &&& #[trigger] wired_walk(snarl, walk)
            &&& walk[0] == from
            &&& walk.last() == to
        }
}

/// No signal ever comes back to where it left.
pub open spec fn loop_free(snarl: Snarl<RfNode>) -> bool {
    forall|from: usize, to: usize| #[trigger]
        wired(snarl, from, to) ==> !wired_through(snarl, to, from)
}

/// The output is wired to the input, and its node exists.
pub open spec fn drives(snarl: Snarl<RfNode>, from: OutPort, to: InPort) -> bool {
    wire_set(snarl).contains((from, to)) && node_table(snarl).contains_key(from.node)
}

/// `driver` is an output that drives the input, if any does.
pub open spec fn is_driver(snarl: Snarl<RfNode>, driver: Option<OutPort>, to: InPort) -> bool {
    match driver {
        Some(pin) => drives(snarl, pin, to),
        None => forall|from: OutPort| !(#[trigger] drives(snarl, from, to)),
    }
}

/// An output that drives an input: of several, the first that the graph lists.
fn upstream(snarl: &Snarl<RfNode>, node: usize, input: usize) -> (driver: Option<OutPort>)
    ensures
        is_driver(*snarl, driver, InPort { node, input }),
{
    let list: Vec<OutPort> = remotes(snarl, node, input);
    let ghost to = InPort { node, input };
    let mut i: usize = 0;
    while i < list.len()
        invariant
            i <= list.len(),
            to == (InPort { node, input }),
            forall|from: OutPort|
                list@.contains(from) <==> #[trigger] wire_set(*snarl).contains((from, to)),
            forall|j: int|
                0 <= j < i ==> !node_table(*snarl).contains_key((#[trigger] list@[j]).node),
        decreases list.len() - i,
    {
        let pin: OutPort = list[i];
        if get_node(snarl, pin.node).is_some() {
            assert(list@.contains(pin));
            assert(wire_set(*snarl).contains((pin, to)));
            return Some(pin);
        }
        i += 1;
    }
    assert forall|from: OutPort| !(#[trigger] drives(*snarl, from, to)) by {
        if wire_set(*snarl).contains((from, to)) {
            assert(list@.contains(from));
        }
    }
    None
}

/// `node` stands for node `id` of the graph: one driver is picked for each of its inputs that
/// is wired.
pub open spec fn stands_for(snarl: Snarl<RfNode>, node: GraphNode) -> bool {
    &&& node_table(snarl).contains_key(node.id)
    &&& node.source == (node_table(snarl)[node.id] is SignalSource)
    &&& node.drivers.len() == node_table(snarl)[node.id].inputs()
    &&& forall|k: int|
        0 <= k < node.drivers.len() ==> is_driver(
            snarl,
            #[trigger] node.drivers[k],
            InPort { node: node.id, input: k as usize },
        )
}

/// The plain graph is a picture of the editor's graph: the same nodes in order of their
/// numbers, and the same drivers, one being picked where an input has several.
pub open spec fn is_snapshot(snarl: Snarl<RfNode>, graph: ChainGraph) -> bool {
    &&& graph.wf()
    &&& forall|id: usize| graph.has(id) <==> #[trigger] node_table(snarl).contains_key(id)
    &&& forall|i: int| 0 <= i < graph.nodes.len() ==> stands_for(snarl, #[trigger] graph.nodes[i])
    &&& forall|i: int, j: int|
        0 <= i < j < graph.nodes.len() ==> (#[trigger] graph.nodes[i]).id < (
        #[trigger] graph.nodes[j]).id
}

fn read_node(snarl: &Snarl<RfNode>, id: usize) -> (node: GraphNode)
    requires
        node_table(*snarl).contains_key(id),
    ensures
        node.id == id,
        stands_for(*snarl, node),
{
    let value: &RfNode = get_node(snarl, id).unwrap();
    let inputs: usize = value.num_inputs();
    let source: bool = matches!(value, RfNode::SignalSource(_));
    let mut drivers: Vec<Option<OutPort>> = Vec::new();
    let mut k: usize = 0;
    while k < inputs
        invariant
            k <= inputs,
            drivers.len() == k,
            forall|j: int|
                0 <= j < k ==> is_driver(
                    *snarl,
                    #[trigger] drivers[j],
                    InPort { node: id, input: j as usize },
                ),
        decreases inputs - k,
    {
        drivers.push(upstream(snarl, id, k));
        k += 1;
    }
    GraphNode { id, source, drivers }
}

/// Takes a picture of the wiring.
pub fn read_graph(snarl: &Snarl<RfNode>) -> (graph: ChainGraph)
    ensures
        is_snapshot(*snarl, graph),
{
    let ids: Vec<usize> = node_ids(snarl);
    let mut nodes: Vec<GraphNode> = Vec::new();
    let mut i: usize = 0;
    while i < ids.len()
        invariant
            i <= ids.len(),
            forall|j: int|
                0 <= j < ids.len() ==> node_table(*snarl).contains_key(#[trigger] ids[j]),
            nodes.len() == i,
            forall|j: int|
                0 <= j < i ==> (#[trigger] nodes[j]).id == ids[j] && stands_for(*snarl, nodes[j]),
        decreases ids.len() - i,
    {
        nodes.push(read_node(snarl, ids[i]));
        i += 1;
    }
    let graph = ChainGraph { nodes };
    proof {
        assert forall|id: usize| graph.has(id) <==> #[trigger] node_table(*snarl).contains_key(
            id,
        ) by {
            if graph.has(id) {
                let j = choose|j: int|
                    0 <= j < graph.nodes.len() && (#[trigger] graph.nodes[j]).id == id;
                assert(node_table(*snarl).contains_key(ids[j]));
            }
            if node_table(*snarl).contains_key(id) {
                let j = choose|j: int| 0 <= j < ids@.len() && ids@[j] == id;
                assert(graph.nodes[j].id == id);
            }
        }
        assert forall|j: int, k: int|
            #![trigger graph.nodes[j].drivers[k]]
            0 <= j < graph.nodes.len() && 0 <= k < graph.nodes[j].drivers.len() && (
            graph.nodes[j].drivers[k] is Some) implies graph.has(
            graph.nodes[j].drivers[k]->0.node,
        ) by {
            assert(stands_for(*snarl, graph.nodes[j]));
            let pin = graph.nodes[j].drivers[k]->0;
            let to = InPort { node: graph.nodes[j].id, input: k as usize };
            assert(drives(*snarl, pin, to));
            assert(node_table(*snarl).contains_key(pin.node));
        }
    }
    graph
}

proof fn snapshot_feeds_are_wires(snarl: Snarl<RfNode>, graph: ChainGraph, from: usize, to: usize)
    requires
        is_snapshot(snarl, graph),
    ensures
        graph.feeds(from, to) ==> wired(snarl, from, to),
        one_driver_per_input(wire_set(snarl)) && wired(snarl, from, to) ==> graph.feeds(from, to),
{
    if graph.feeds(from, to) {
        let k = choose|k: int| #[trigger] graph.feeds_at(from, to, k);
        let i = choose|i: int| 0 <= i < graph.nodes.len() && (#[trigger] graph.nodes[i]).id == to;
        assert(stands_for(snarl, graph.nodes[i]));
        assert(graph.node(to) == graph.nodes[i]);
        let pin = graph.nodes[i].drivers[k]->0;
        let into = InPort { node: to, input: k as usize };
        assert(joins(snarl, pin, into));
    }
    if one_driver_per_input(wire_set(snarl)) && wired(snarl, from, to) {
        let (out, into) = choose|out: OutPort, into: InPort| #[trigger]
            joins(snarl, out, into) && out.node == from && into.node == to;
        assert(graph.has(to));
        let i = choose|i: int| 0 <= i < graph.nodes.len() && (#[trigger] graph.nodes[i]).id == to;
        assert(stands_for(snarl, graph.nodes[i]));
        assert(graph.node(to) == graph.nodes[i]);
        let k = into.input as int;
        assert(into == InPort { node: to, input: k as usize });
        match graph.nodes[i].drivers[k] {
            Some(pin) => {
                assert(drives(snarl, pin, into));
                assert(pin == out);
                assert(graph.feeds_at(from, to, k));
            },
            None => {
                assert(!drives(snarl, out, into));
            },
        }
    }
}

proof fn snapshot_reaches_over_wires(snarl: Snarl<RfNode>, graph: ChainGraph, from: usize, to: usize)
    requires
        is_snapshot(snarl, graph),
    ensures
        graph.reaches(from, to) ==> wired_through(snarl, from, to),
        one_driver_per_input(wire_set(snarl)) && wired_through(snarl, from, to) ==> graph.reaches(
            from,
            to,
        ),
{
    if graph.reaches(from, to) {
        let walk = choose|walk: Seq<usize>|
            walk.len() > 0 && #[trigger] graph.is_walk(walk) && walk[0] == from && walk.last() == to;
        assert forall|i: int| 0 <= i < walk.len() - 1 implies wired(
            snarl,
            #[trigger] walk[i],
            walk[i + 1],
        ) by {
            assert(graph.feeds(walk[i], walk[i + 1]));
            snapshot_feeds_are_wires(snarl, graph, walk[i], walk[i + 1]);
        }
        assert(wired_walk(snarl, walk));
    }
    if one_driver_per_input(wire_set(snarl)) && wired_through(snarl, from, to) {
        let walk = choose|walk: Seq<usize>|
            walk.len() > 0 && #[trigger] wired_walk(snarl, walk) && walk[0] == from && walk.last()
                == to;
        assert forall|i: int| 0 <= i < walk.len() - 1 implies graph.feeds(
            #[trigger] walk[i],
            walk[i + 1],
        ) by {
            assert(wired(snarl, walk[i], walk[i + 1]));
            snapshot_feeds_are_wires(snarl, graph, walk[i], walk[i + 1]);
        }
        assert(graph.is_walk(walk));
    }
}

// ---------------------------------------------------------------------------
// Rules of wiring
// ---------------------------------------------------------------------------

/// Whether connecting `from` to `to` would close a loop in the graph.
///
/// It says so only where the wires lead from `to` back to `from`; and wherever they do, provided
/// no input has two drivers (of several drivers only one is followed).
pub fn would_create_cycle(snarl: &Snarl<RfNode>, from: usize, to: usize) -> (closes: bool)
    ensures
        closes ==> wired_through(*snarl, to, from),
        one_driver_per_input(wire_set(*snarl)) ==> (closes <==> wired_through(*snarl, to, from)),
{
    if from != to && get_node(snarl, from).is_none() {
        proof {
            nothing_reaches_a_missing_node(*snarl, to, from);
        }
        return false;
    }
    let graph: ChainGraph = read_graph(snarl);
    proof {
        snapshot_reaches_over_wires(*snarl, graph, to, from);
    }
    closes_loop(&graph, from, to)
}

proof fn nothing_reaches_a_missing_node(snarl: Snarl<RfNode>, from: usize, to: usize)
    requires
        from != to,
        !node_table(snarl).contains_key(to),
    ensures
        !wired_through(snarl, from, to),
{
    if wired_through(snarl, from, to) {
        let walk = choose|walk: Seq<usize>|
            walk.len() > 0 && #[trigger] wired_walk(snarl, walk) && walk[0] == from && walk.last()
                == to;
        let i = walk.len() - 2;
        assert(wired(snarl, walk[i], walk[i + 1]));
    }
}

/// The wires after `from` has been connected to `to`: whatever else was at either end is gone.
pub open spec fn rewired(wires: Set<(OutPort, InPort)>, from: OutPort, to: InPort) -> Set<
    (OutPort, InPort),
> {
    wires.filter(|wire: (OutPort, InPort)| wire.0 != from).filter(
        |wire: (OutPort, InPort)| wire.1 != to,
    ).insert((from, to))
}

/// Connects an output to an input, unless that would close a loop. An output can only go to one
/// input and an input can only receive from one output, so wires already at either end are
/// removed first. True if the wire was drawn.
pub fn connect(snarl: &mut Snarl<RfNode>, from: OutPort, to: InPort) -> (connected: bool)
    requires
        node_table(*old(snarl)).contains_key(from.node),
        node_table(*old(snarl)).contains_key(to.node),
    ensures
        node_table(*final(snarl)) == node_table(*old(snarl)),
        wire_set(*final(snarl)) == if connected {
            rewired(wire_set(*old(snarl)), from, to)
        } else {
            wire_set(*old(snarl))
        },
        !connected ==> wired_through(*old(snarl), to.node, from.node),
        one_driver_per_input(wire_set(*old(snarl))) ==> (connected <==> !wired_through(
            *old(snarl),
            to.node,
            from.node,
        )),
{
    if would_create_cycle(snarl, from.node, to.node) {
        return false;
    }
    drop_outputs(snarl, from);
    drop_inputs(snarl, to);
    add_wire(snarl, from, to);
    true
}

/// Connects an output to an input, whether or not their nodes exist: as [`connect`] does if they
/// do; otherwise nothing happens, and nothing is returned.
pub fn try_connect(snarl: &mut Snarl<RfNode>, from: OutPort, to: InPort) -> (connected: Option<bool>)
    ensures
        connected is Some <==> node_table(*old(snarl)).contains_key(from.node) && node_table(
            *old(snarl),
        ).contains_key(to.node),
        connected is None ==> *final(snarl) == *old(snarl),
        node_table(*final(snarl)) == node_table(*old(snarl)),
        wire_set(*final(snarl)) == if connected == Some(true) {
            rewired(wire_set(*old(snarl)), from, to)
        } else {
            wire_set(*old(snarl))
        },
        connected == Some(false) ==> wired_through(*old(snarl), to.node, from.node),
        connected is Some && one_driver_per_input(wire_set(*old(snarl))) ==> (connected->0
            <==> !wired_through(*old(snarl), to.node, from.node)),
{
    if get_node(snarl, from.node).is_none() || get_node(snarl, to.node).is_none() {
        return None;
    }
    Some(connect(snarl, from, to))
}

/// Connecting keeps the wiring one to one.
pub proof fn connecting_keeps_one_to_one(wires: Set<(OutPort, InPort)>, from: OutPort, to: InPort)
    requires
        one_driver_per_input(wires),
        one_load_per_output(wires),
    ensures
        one_driver_per_input(rewired(wires, from, to)),
        one_load_per_output(rewired(wires, from, to)),
        rewired(wires, from, to).contains((from, to)),
{
    let after = rewired(wires, from, to);
    assert forall|a: OutPort, b: OutPort, into: InPort| #[trigger]
        after.contains((a, into)) && #[trigger] after.contains((b, into)) implies a == b by {
        if (a, into) != (from, to) && (b, into) != (from, to) {
            assert(wires.contains((a, into)) && wires.contains((b, into)));
        }
    }
    assert forall|out: OutPort, a: InPort, b: InPort| #[trigger]
        after.contains((out, a)) && #[trigger] after.contains((out, b)) implies a == b by {
        if (out, a) != (from, to) && (out, b) != (from, to) {
            assert(wires.contains((out, a)) && wires.contains((out, b)));
        }
    }
}

proof fn wired_step(snarl: Snarl<RfNode>, from: usize, via: usize, to: usize)
    requires
        wired(snarl, from, via),
        wired_through(snarl, via, to),
    ensures
        wired_through(snarl, from, to),
{
    let rest = choose|walk: Seq<usize>|
        walk.len() > 0 && #[trigger] wired_walk(snarl, walk) && walk[0] == via && walk.last() == to;
    let walk = seq![from] + rest;
    assert forall|i: int| 0 <= i < walk.len() - 1 implies wired(
        snarl,
        #[trigger] walk[i],
        walk[i + 1],
    ) by {
        if i > 0 {
            assert(walk[i] == rest[i - 1]);
            assert(walk[i + 1] == rest[i]);
        } else {
            assert(walk[1] == rest[0]);
        }
    }
    assert(wired_walk(snarl, walk));
    assert(walk[0] == from && walk.last() == to);
}

proof fn wired_join(snarl: Snarl<RfNode>, start: Seq<usize>, to: usize)
    requires
        start.len() > 0,
        wired_walk(snarl, start),
        wired_through(snarl, start.last(), to),
    ensures
        wired_through(snarl, start[0], to),
    decreases start.len(),
{
    if start.len() > 1 {
        let rest = start.drop_first();
        assert forall|i: int| 0 <= i < rest.len() - 1 implies wired(
            snarl,
            #[trigger] rest[i],
            rest[i + 1],
        ) by {
            assert(rest[i] == start[i + 1] && rest[i + 1] == start[i + 2]);
        }
        assert(rest.last() == start.last());
        wired_join(snarl, rest, to);
        assert(wired(snarl, start[0], start[1]));
        wired_step(snarl, start[0], start[1], to);
    }
}

proof fn wired_chain(snarl: Snarl<RfNode>, from: usize, via: usize, to: usize)
    requires
        wired_through(snarl, from, via),
        wired_through(snarl, via, to),
    ensures
        wired_through(snarl, from, to),
{
    let start = choose|walk: Seq<usize>|
        walk.len() > 0 && #[trigger] wired_walk(snarl, walk) && walk[0] == from && walk.last()
            == via;
    wired_join(snarl, start, to);
}

proof fn wired_to_itself(snarl: Snarl<RfNode>, id: usize)
    ensures
        wired_through(snarl, id, id),
{
    let walk = seq![id];
    assert(wired_walk(snarl, walk));
    assert(walk[0] == id && walk.last() == id);
}

proof fn one_new_edge(
    before: Snarl<RfNode>,
    after: Snarl<RfNode>,
    from: OutPort,
    to: InPort,
    a: usize,
    b: usize,
)
    requires
        node_table(after) == node_table(before),
        wire_set(after) == rewired(wire_set(before), from, to),
        wired(after, a, b),
    ensures
        wired(before, a, b) || (a == from.node && b == to.node),
{
    let (out, into) = choose|out: OutPort, into: InPort| #[trigger]
        joins(after, out, into) && out.node == a && into.node == b;
    if (out, into) != (from, to) {
        assert(wire_set(before).contains((out, into)));
        assert(joins(before, out, into));
    }
}

proof fn new_walks_split(
    before: Snarl<RfNode>,
    after: Snarl<RfNode>,
    from: OutPort,
    to: InPort,
    walk: Seq<usize>,
)
    requires
        node_table(after) == node_table(before),
        wire_set(after) == rewired(wire_set(before), from, to),
        !wired_through(before, to.node, from.node),
        walk.len() > 0,
        wired_walk(after, walk),
    ensures
        wired_through(before, walk[0], walk.last()) || (wired_through(before, walk[0], from.node)
            && wired_through(before, to.node, walk.last())),
    decreases walk.len(),
{
    if walk.len() == 1 {
        wired_to_itself(before, walk[0]);
    } else {
        let rest = walk.drop_first();
        assert forall|i: int| 0 <= i < rest.len() - 1 implies wired(
            after,
            #[trigger] rest[i],
            rest[i + 1],
        ) by {
            assert(rest[i] == walk[i + 1] && rest[i + 1] == walk[i + 2]);
        }
        new_walks_split(before, after, from, to, rest);
        let a = walk[0];
        let b = walk[1];
        assert(wired(after, walk[0], walk[1]));
        one_new_edge(before, after, from, to, a, b);
        assert(rest[0] == b && rest.last() == walk.last());
        if wired(before, a, b) {
            if wired_through(before, b, walk.last()) {
                wired_step(before, a, b, walk.last());
            } else {
                wired_step(before, a, b, from.node);
            }
        } else {
            wired_to_itself(before, from.node);
        }
    }
}

/// Connecting keeps the graph free of loops: a wire that leads to no existing way back closes
/// none, whatever wires were removed for it.
pub proof fn connecting_keeps_loop_free(
    before: Snarl<RfNode>,
    after: Snarl<RfNode>,
    from: OutPort,
    to: InPort,
)
    requires
        loop_free(before),
        node_table(after) == node_table(before),
        wire_set(after) == rewired(wire_set(before), from, to),
        !wired_through(before, to.node, from.node),
    ensures
        loop_free(after),
{
    assert forall|a: usize, b: usize| #[trigger] wired(after, a, b) implies !wired_through(
        after,
        b,
        a,
    ) by {
        if wired_through(after, b, a) {
            let walk = choose|walk: Seq<usize>|
                walk.len() > 0 && #[trigger] wired_walk(after, walk) && walk[0] == b && walk.last()
                    == a;
            new_walks_split(before, after, from, to, walk);
            one_new_edge(before, after, from, to, a, b);
            if wired(before, a, b) {
                if !wired_through(before, b, a) {
                    wired_step(before, a, b, from.node);
                    wired_chain(before, to.node, a, from.node);
                }
            }
        }
    }
}

// ---------------------------------------------------------------------------
// Nodes by role
// ---------------------------------------------------------------------------

/// The node is the input of this converter block.
pub open spec fn is_adc_input(node: RfNode, tile: usize, block: usize) -> bool {
    node matches RfNode::AdcInput(adc) && adc.tile_index == tile && adc.block_index == block
}

/// The input node of a converter block: of several, the one with the lowest number.
pub fn find_adc_input(snarl: &Snarl<RfNode>, target_tile: usize, target_block: usize) -> (found:
    Option<usize>)
    ensures
        found is None ==> forall|id: usize| #[trigger]
            node_table(*snarl).contains_key(id) ==> !is_adc_input(
                node_table(*snarl)[id],
                target_tile,
                target_block,
            ),
        found is Some ==> {
            &&& node_table(*snarl).contains_key(found->0)
            &&& is_adc_input(node_table(*snarl)[found->0], target_tile, target_block)
            &&& forall|id: usize|
                id < found->0 && #[trigger] node_table(*snarl).contains_key(id) ==> !is_adc_input(
                    node_table(*snarl)[id],
                    target_tile,
                    target_block,
                )
        },
{
    let ids: Vec<usize> = node_ids(snarl);
    let mut i: usize = 0;
    while i < ids.len()
        invariant
            i <= ids.len(),
            forall|j: int, k: int|
                0 <= j < k < ids.len() ==> #[trigger] ids[j] < #[trigger] ids[k],
            forall|j: int|
                0 <= j < ids.len() ==> node_table(*snarl).contains_key(#[trigger] ids[j]),
            forall|id: usize| #[trigger]
                node_table(*snarl).contains_key(id) ==> ids@.contains(id),
            forall|j: int|
                0 <= j < i ==> !is_adc_input(
                    node_table(*snarl)[#[trigger] ids[j]],
                    target_tile,
                    target_block,
                ),
        decreases ids.len() - i,
    {
        let node: &RfNode = get_node(snarl, ids[i]).unwrap();
        if let RfNode::AdcInput(adc) = node {
            if adc.tile_index == target_tile && adc.block_index == target_block {
                proof {
                    assert forall|id: usize|
                        id < ids[i as int] && #[trigger] node_table(*snarl).contains_key(
                            id,
                        ) implies !is_adc_input(
                        node_table(*snarl)[id],
                        target_tile,
                        target_block,
                    ) by {
                        let j = choose|j: int| 0 <= j < ids@.len() && ids@[j] == id;
                        if j > i {
                            assert(ids[i as int] < ids[j]);
                        }
                        assert(ids[j] == id);
                    }
                }
                return Some(ids[i]);
            }
        }
        i += 1;
    }
    proof {
        assert forall|id: usize| #[trigger]
            node_table(*snarl).contains_key(id) implies !is_adc_input(
            node_table(*snarl)[id],
            target_tile,
            target_block,
        ) by {
            let j = choose|j: int| 0 <= j < ids@.len() && ids@[j] == id;
            assert(ids[j] == id);
        }
    }
    None
}

/// The text a node is known by.
pub open spec fn node_label(id: usize) -> Seq<char> {
    "NodeId("@ + numeral(id as nat) + ")"@
}

/// A deterministic per-node seed, so each stage's noise is independent but reproducible.
pub fn node_seed(id: usize) -> (seed: u64)
    ensures
        seed == fnv1a(node_label(id).map_values(|c: char| c as u8)) | 1,
{
    let name: String = node_name(id);
    let chars: Vec<char> = chars_of(name.as_str());
    let mut bytes: Vec<u8> = Vec::new();
    let mut i: usize = 0;
    while i < chars.len()
        invariant
            i <= chars.len(),
            bytes@ == chars@.take(i as int).map_values(|c: char| c as u8),
        decreases chars.len() - i,
    {
        bytes.push(chars[i] as u8);
        assert(bytes@ =~= chars@.take(i + 1).map_values(|c: char| c as u8));
        i += 1;
    }
    assert(chars@.take(i as int) =~= chars@);
    name_seed(&bytes)
}

/// No two nodes are known by the same text.
pub proof fn node_labels_differ(a: usize, b: usize)
    requires
        node_label(a) == node_label(b),
    ensures
        a == b,
{
    let head = "NodeId("@;
    let tail = ")"@;
    assert(node_label(a).len() == head.len() + numeral(a as nat).len() + tail.len());
    assert(node_label(b).len() == head.len() + numeral(b as nat).len() + tail.len());
    assert(node_label(a).subrange(head.len() as int, node_label(a).len() - tail.len()) =~= numeral(
        a as nat,
    ));
    assert(node_label(b).subrange(head.len() as int, node_label(b).len() - tail.len()) =~= numeral(
        b as nat,
    ));
    numeral_is_injective(a as nat, b as nat);
}

// ---------------------------------------------------------------------------
// The reference tone
// ---------------------------------------------------------------------------

/// The stronger of the tone found so far and the `n`-th tone; of equals, the earlier.
pub open spec fn strongest_of(tones: Seq<Tone>, n: int, before: Option<(Micro, Micro)>) -> Option<
    (Micro, Micro),
>
    decreases n,
{
    if n <= 0 {
        before
    } else {
        let best = strongest_of(tones, n - 1, before);
        let tone = tones[n - 1];
        match best {
            Some((amplitude, _)) => if tone.amplitude_dbfs > amplitude {
                Some((tone.amplitude_dbfs, tone.frequency_mhz))
            } else {
                best
            },
            None => Some((tone.amplitude_dbfs, tone.frequency_mhz)),
        }
    }
}

fn consider(generator: &SignalGenerator, before: Option<(Micro, Micro)>) -> (best: Option<
    (Micro, Micro),
>)
    ensures
        best == strongest_of(generator.tones@, generator.tones.len() as int, before),
{
    let mut best: Option<(Micro, Micro)> = before;
    let mut n: usize = 0;
    while n < generator.tones.len()
        invariant
            n <= generator.tones.len(),
            best == strongest_of(generator.tones@, n as int, before),
        decreases generator.tones.len() - n,
    {
        let tone: Tone = generator.tones[n];
        best = match best {
            Some((amplitude, frequency)) => if tone.amplitude_dbfs > amplitude {
                Some((tone.amplitude_dbfs, tone.frequency_mhz))
            } else {
                Some((amplitude, frequency))
            },
            None => Some((tone.amplitude_dbfs, tone.frequency_mhz)),
        };
        n += 1;
    }
    best
}

/// The node generates its own signal.
pub open spec fn is_local_source(node: RfNode) -> bool {
    node matches RfNode::SignalSource(source) && source.source_type == SourceType::LocalGenerator
}

/// The strongest tone of the local sources among nodes, in the order given.
pub open spec fn strongest_local(table: Map<usize, RfNode>, ids: Seq<usize>, n: int) -> Option<
    (Micro, Micro),
>
    decreases n,
{
    if n <= 0 {
        None
    } else {
        let best = strongest_local(table, ids, n - 1);
        match table[ids[n - 1]] {
            RfNode::SignalSource(source) => if source.source_type == SourceType::LocalGenerator {
                strongest_of(source.generator.tones@, source.generator.tones.len() as int, best)
            } else {
                best
            },
            _ => best,
        }
    }
}

/// The numbers of all nodes, each once, in rising order.
pub open spec fn lists_nodes(table: Map<usize, RfNode>, ids: Seq<usize>) -> bool {
    &&& forall|i: int, j: int| 0 <= i < j < ids.len() ==> #[trigger] ids[i] < #[trigger] ids[j]
    &&& forall|i: int| 0 <= i < ids.len() ==> table.contains_key(#[trigger] ids[i])
    &&& forall|id: usize| #[trigger] table.contains_key(id) ==> ids.contains(id)
}

/// The frequency a budget is quoted at, from the strongest tone found: never below 1 MHz, and
/// 1000 MHz if there is no tone.
pub open spec fn reference_freq(best: Option<(Micro, Micro)>) -> Micro {
    match best {
        Some((_, frequency)) => if frequency >= 1_000_000 {
            frequency
        } else {
            1_000_000
        },
        None => 1_000_000_000,
    }
}

/// Frequency of the strongest tone driving the graph, used as the RF budget's reference. Local
/// sources on the graph take priority over the global generator.
pub fn dominant_tone_mhz(snarl: &Snarl<RfNode>, global: &SignalGenerator) -> (frequency: Micro)
    ensures
        forall|ids: Seq<usize>| #[trigger]
            lists_nodes(node_table(*snarl), ids) ==> frequency == reference_freq(
                if exists|i: int|
                    0 <= i < ids.len() && is_local_source(node_table(*snarl)[#[trigger] ids[i]]) {
                    strongest_local(node_table(*snarl), ids, ids.len() as int)
                } else {
                    strongest_of(global.tones@, global.tones.len() as int, None)
                },
            ),
{
    let ghost table = node_table(*snarl);
    let ids: Vec<usize> = node_ids(snarl);
    assert(lists_nodes(table, ids@));
    let mut best: Option<(Micro, Micro)> = None;
    let mut saw_local: bool = false;
    let mut n: usize = 0;
    while n < ids.len()
        invariant
            table == node_table(*snarl),
            lists_nodes(table, ids@),
            n <= ids.len(),
            best == strongest_local(table, ids@, n as int),
            saw_local == exists|i: int|
                0 <= i < n && is_local_source(table[#[trigger] ids@[i]]),
        decreases ids.len() - n,
    {
        assert(table.contains_key(ids@[n as int]));
        let node: &RfNode = get_node(snarl, ids[n]).unwrap();
        if let RfNode::SignalSource(source) = node {
            if matches!(source.source_type, SourceType::LocalGenerator) {
                best = consider(&source.generator, best);
                saw_local = true;
                assert(is_local_source(table[ids@[n as int]]));
            }
        }
        n += 1;
    }
    let chosen: Option<(Micro, Micro)> = if saw_local {
        best
    } else {
        consider(global, None)
    };
    proof {
        assert forall|other: Seq<usize>| #[trigger] lists_nodes(table, other) implies other
            == ids@ by {
            rising_lists_agree(table, ids@, other);
        }
    }
    match chosen {
        Some((_, frequency)) => if frequency >= 1_000_000 {
            frequency
        } else {
            1_000_000
        },
        None => 1_000_000_000,
    }
}

proof fn rising_lists_agree(table: Map<usize, RfNode>, a: Seq<usize>, b: Seq<usize>)
    requires
        lists_nodes(table, a),
        lists_nodes(table, b),
    ensures
        a == b,
{
    prefix_agrees(table, a, b, a.len() as int);
    prefix_agrees(table, b, a, b.len() as int);
    assert(a =~= b);
}

proof fn prefix_agrees(table: Map<usize, RfNode>, a: Seq<usize>, b: Seq<usize>, n: int)
    requires
        lists_nodes(table, a),
        lists_nodes(table, b),
        0 <= n <= a.len(),
    ensures
        n <= b.len(),
        forall|i: int| 0 <= i < n ==> a[i] == b[i],
    decreases n,
{
    if n > 0 {
        prefix_agrees(table, a, b, n - 1);
        let x = a[n - 1];
        assert(table.contains_key(x));
        let j = choose|j: int| 0 <= j < b.len() && b[j] == x;
        if j < n - 1 {
            assert(a[j] == b[j]);
            assert(a[j] < a[n - 1]);
        } else if j > n - 1 {
            let y = b[n - 1];
            assert(table.contains_key(y));
            let k = choose|k: int| 0 <= k < a.len() && a[k] == y;
            assert(b[n - 1] < b[j]);
            if k < n - 1 {
                assert(b[k] == a[k]);
                assert(b[k] < b[n - 1]);
            } else if k > n - 1 {
                assert(a[n - 1] < a[k]);
            }
        }
    }
}

/// Connecting replaces what was at the two ends and nothing else: the new wire is there, every wire
/// that shared its output or its input is gone, and every other wire is as it was.
pub proof fn connecting_replaces_only_what_was_at_its_ends(
    wires: Set<(OutPort, InPort)>,
    from: OutPort,
    to: InPort,
    out: OutPort,
    into: InPort,
)
    ensures
        rewired(wires, from, to).contains((from, to)),
        out == from && into != to ==> !rewired(wires, from, to).contains((out, into)),
        out != from && into == to ==> !rewired(wires, from, to).contains((out, into)),
        out != from && into != to ==> (rewired(wires, from, to).contains((out, into))
            <==> wires.contains((out, into))),
{
}

proof fn strongest_is_first_of_the_strongest(
    tones: Seq<Tone>,
    n: int,
    before: Option<(Micro, Micro)>,
    k: int,
)
    requires
        0 <= n <= tones.len(),
    ensures
        n > 0 ==> strongest_of(tones, n, before) is Some,
        before is Some ==> strongest_of(tones, n, before) is Some,
        strongest_of(tones, n, before) matches Some(best) ==> {
            &&& 0 <= k < n ==> tones[k].amplitude_dbfs <= best.0
            &&& before is Some ==> (before->0).0 <= best.0
            &&& before == Some(best) || exists|j: int|
                {
                    &&& 0 <= j < n
                    &&& (#[trigger] tones[j]).amplitude_dbfs == best.0
                    &&& tones[j].frequency_mhz == best.1
                    &&& forall|i: int| 0 <= i < j ==> (#[trigger] tones[i]).amplitude_dbfs < best.0
                    &&& before is Some ==> (before->0).0 < best.0
                }
            &&& before is Some && (before->0).0 == best.0 ==> before == Some(best)
        },
    decreases n,
{
    if n > 0 {
        strongest_is_first_of_the_strongest(tones, n - 1, before, k);
        let was = strongest_of(tones, n - 1, before);
        let tone = tones[n - 1];
        if was is None || tone.amplitude_dbfs > (was->0).0 {
            assert forall|i: int| 0 <= i < n - 1 implies (#[trigger] tones[i]).amplitude_dbfs
                < tone.amplitude_dbfs by {
                strongest_is_first_of_the_strongest(tones, n - 1, before, i);
            }
            assert(tones[n - 1].amplitude_dbfs == tone.amplitude_dbfs);
        } else if before != was {
            let best = was->0;
            let j = choose|j: int|
                {
                    &&& 0 <= j < n - 1
                    &&& (#[trigger] tones[j]).amplitude_dbfs == best.0
                    &&& tones[j].frequency_mhz == best.1
                    &&& forall|i: int| 0 <= i < j ==> (#[trigger] tones[i]).amplitude_dbfs < best.0
                    &&& before is Some ==> (before->0).0 < best.0
                };
            assert(tones[j].amplitude_dbfs == best.0);
        }
    }
}

/// The strongest of a list of tones is one of them, no other is stronger, and none before it is as
/// strong.
pub proof fn strongest_tone_is_the_strongest(tones: Seq<Tone>, k: int)
    requires
        0 <= k < tones.len(),
    ensures
        strongest_of(tones, tones.len() as int, None) matches Some(best) && tones[k].amplitude_dbfs
            <= best.0 && exists|j: int|
            {
                &&& 0 <= j < tones.len()
                &&& (#[trigger] tones[j]).amplitude_dbfs == best.0
                &&& tones[j].frequency_mhz == best.1
                &&& forall|i: int| 0 <= i < j ==> (#[trigger] tones[i]).amplitude_dbfs < best.0
            },
{
    strongest_is_first_of_the_strongest(tones, tones.len() as int, None, k);
}

/// Only sources that generate their own signal count for the reference. Of all their tones none is
/// stronger than the one found, and what was found is the tone of one of them.
pub proof fn strongest_local_tone_is_the_strongest(
    table: Map<usize, RfNode>,
    ids: Seq<usize>,
    n: int,
    m: int,
    k: int,
)
    requires
        0 <= n <= ids.len(),
    ensures
        0 <= m < n && is_local_source(table[ids[m]]) && 0 <= k
            < table[ids[m]]->SignalSource_0.generator.tones.len() ==> (strongest_local(
            table,
            ids,
            n,
        ) matches Some(best)
            && table[ids[m]]->SignalSource_0.generator.tones[k].amplitude_dbfs <= best.0),
        strongest_local(table, ids, n) matches Some(best) ==> exists|i: int, j: int|
            {
                &&& 0 <= i < n
                &&& is_local_source(table[ids[i]])
                &&& 0 <= j < table[ids[i]]->SignalSource_0.generator.tones.len()
                &&& (#[trigger] table[ids[i]]->SignalSource_0.generator.tones[j]).amplitude_dbfs
                    == best.0
                &&& table[ids[i]]->SignalSource_0.generator.tones[j].frequency_mhz == best.1
            },
    decreases n,
{
    if n > 0 {
        strongest_local_tone_is_the_strongest(table, ids, n - 1, m, k);
        let before = strongest_local(table, ids, n - 1);
        let node = table[ids[n - 1]];
        if is_local_source(node) {
            let tones = node->SignalSource_0.generator.tones@;
            strongest_is_first_of_the_strongest(tones, tones.len() as int, before, k);
            if let Some(best) = strongest_local(table, ids, n) {
                if before != Some(best) {
                    let j = choose|j: int|
                        {
                            &&& 0 <= j < tones.len()
                            &&& (#[trigger] tones[j]).amplitude_dbfs == best.0
                            &&& tones[j].frequency_mhz == best.1
                            &&& forall|i: int|
                                0 <= i < j ==> (#[trigger] tones[i]).amplitude_dbfs < best.0
                            &&& before is Some ==> (before->0).0 < best.0
                        };
                    assert(table[ids[n - 1]]->SignalSource_0.generator.tones[j].amplitude_dbfs
                        == best.0);
                }
            }
        }
        if let Some(best) = strongest_local(table, ids, n) {
            if before == Some(best) {
                let (i, j) = choose|i: int, j: int|
                    {
                        &&& 0 <= i < n - 1
                        &&& is_local_source(table[ids[i]])
                        &&& 0 <= j < table[ids[i]]->SignalSource_0.generator.tones.len()
                        &&& (
                        #[trigger] table[ids[i]]->SignalSource_0.generator.tones[j]).amplitude_dbfs
                            == best.0
                        &&& table[ids[i]]->SignalSource_0.generator.tones[j].frequency_mhz
                            == best.1
                    };
                assert(table[ids[i]]->SignalSource_0.generator.tones[j].amplitude_dbfs == best.0);
            }
        }
    }
}

/// The reference frequency is that of the tone found, but never below one megahertz; without a tone
/// it is one gigahertz.
pub proof fn reference_follows_the_tone(amplitude: Micro, frequency: Micro)
    ensures
        reference_freq(Some((amplitude, frequency))) >= 1_000_000,
        frequency >= 1_000_000 ==> reference_freq(Some((amplitude, frequency))) == frequency,
        frequency < 1_000_000 ==> reference_freq(Some((amplitude, frequency))) == 1_000_000,
        reference_freq(None) == 1_000_000_000,
{
}

} // verus!
