//! Evaluation order of a signal chain.
//!
//! A chain is evaluated by walking the graph backwards from a converter input. The walk is
//! recorded as a list of steps for a stack machine: a source pushes a waveform, a stage takes
//! the waveforms of its connected inputs off the stack and pushes its own. A feedback loop is
//! reported instead of followed, and evaluates to nothing.

use vstd::prelude::*;
use vstd::seq_lib::*;
use crate::decimation::copy_of;
use crate::graph::{holds, ChainGraph, OutPort};
use crate::nodes::RfNode;

verus! {

/// One step of an evaluation.
#[derive(Clone, Copy, Debug, PartialEq, Eq, Structural)]
pub enum Step {
    /// Generate the waveform of a source and push it.
    Source { node: usize },
    /// Pop the waveforms of `inputs` connected inputs, in order, and push what leaves `port`.
    Stage { node: usize, port: usize, inputs: usize },
}

/// What a walk has gathered: steps, and the nodes at which it ran into a loop.
pub struct Progress {
    pub steps: Seq<Step>,
    pub cycles: Seq<usize>,
}

/// The walk back from an output. `path` holds the nodes being expanded. Says whether a waveform
/// arrives, and what has been gathered.
pub open spec fn walk_back(
    graph: ChainGraph,
    pin: OutPort,
    path: Seq<usize>,
    before: Progress,
) -> (bool, Progress)
    decreases graph.nodes.len() - path.len(), 0nat,
{
    if path.contains(pin.node) {
        (
            false,
            if before.cycles.contains(pin.node) {
                before
            } else {
                Progress { cycles: before.cycles.push(pin.node), ..before }
            },
        )
    } else if graph.node(pin.node).source {
        (true, Progress { steps: before.steps.push(Step::Source { node: pin.node }), ..before })
    } else if path.len() >= graph.nodes.len() {
        // Not reached: a path of distinct nodes cannot hold the whole graph and miss one.
        (false, before)
    } else {
        let (inputs, after) = walk_inputs(
            graph,
            pin.node,
            graph.drivers(pin.node).len(),
            path.push(pin.node),
            before,
        );
        if inputs == 0 {
            (false, after)
        } else {
            (
                true,
                Progress {
                    steps: after.steps.push(
                        Step::Stage { node: pin.node, port: pin.port, inputs: inputs as usize },
                    ),
                    ..after
                },
            )
        }
    }
}

/// The walk back from the first `k` inputs of a node. Says at how many of them a waveform
/// arrives, and what has been gathered.
pub open spec fn walk_inputs(
    graph: ChainGraph,
    node: usize,
    k: nat,
    path: Seq<usize>,
    before: Progress,
) -> (nat, Progress)
    decreases graph.nodes.len() - path.len(), k,
{
    if k == 0 {
        (0, before)
    } else {
        let (inputs, middle) = walk_inputs(graph, node, (k - 1) as nat, path, before);
        match graph.drivers(node)[k - 1] {
            None => (inputs, middle),
            Some(pin) => {
                let (arrives, after) = walk_back(graph, pin, path, middle);
                (
                    if arrives {
                        inputs + 1
                    } else {
                        inputs
                    },
                    after,
                )
            },
        }
    }
}

/// The nodes being expanded are distinct nodes of the graph.
pub open spec fn is_path(graph: ChainGraph, path: Seq<usize>) -> bool {
    &&& path.no_duplicates()
    &&& forall|i: int| 0 <= i < path.len() ==> graph.has(#[trigger] path[i])
}

proof fn path_grows(graph: ChainGraph, path: Seq<usize>, node: usize)
    requires
        is_path(graph, path),
        graph.has(node),
        !path.contains(node),
    ensures
        is_path(graph, path.push(node)),
        path.len() < graph.nodes.len(),
{
    let longer = path.push(node);
    assert(longer.no_duplicates()) by {
        assert forall|i: int, j: int|
            0 <= i < longer.len() && 0 <= j < longer.len() && i != j implies longer[i]
            != longer[j] by {
            if i < path.len() && j < path.len() {
                assert(path[i] != path[j]);
            }
        }
    }
    assert forall|i: int| 0 <= i < longer.len() implies graph.has(#[trigger] longer[i]) by {
        if i < path.len() {
            assert(longer[i] == path[i]);
        }
    }
    graph.distinct_nodes_fit(longer);
}

proof fn input_count_is_bounded(graph: ChainGraph, node: usize, k: nat, path: Seq<usize>, before: Progress)
    ensures
        walk_inputs(graph, node, k, path, before).0 <= k,
    decreases k,
{
    if k > 0 {
        input_count_is_bounded(graph, node, (k - 1) as nat, path, before);
    }
}

/// Walks back from an output, appending steps and loop nodes. The result says whether a
/// waveform arrives.
pub fn evaluate_samples(
    graph: &ChainGraph,
    pin: OutPort,
    path: &mut Vec<usize>,
    steps: &mut Vec<Step>,
    cycles: &mut Vec<usize>,
) -> (arrives: bool)
    requires
        graph.wf(),
        graph.has(pin.node),
        is_path(*graph, old(path)@),
    ensures
        final(path)@ == old(path)@,
        (arrives, (Progress { steps: final(steps)@, cycles: final(cycles)@ })) == walk_back(
            *graph,
            pin,
            old(path)@,
            (Progress { steps: old(steps)@, cycles: old(cycles)@ }),
        ),
    decreases graph.nodes.len() - old(path).len(),
{
    if holds(path, pin.node) {
        if !holds(cycles, pin.node) {
            cycles.push(pin.node);
        }
        return false;
    }
    let at: usize = graph.index_of(pin.node).unwrap();
    if graph.nodes[at].source {
        steps.push(Step::Source { node: pin.node });
        return true;
    }
    proof {
        path_grows(*graph, path@, pin.node);
    }
    let ghost start = path@;
    let ghost before = Progress { steps: steps@, cycles: cycles@ };
    path.push(pin.node);
    let ghost longer = path@;
    let count: usize = graph.nodes[at].drivers.len();
    let mut inputs: usize = 0;
    let mut k: usize = 0;
    while k < count
        invariant
            graph.wf(),
            graph.has(pin.node),
            at < graph.nodes.len(),
            graph.node(pin.node) == graph.nodes[at as int],
            count == graph.nodes[at as int].drivers.len(),
            k <= count,
            inputs <= k,
            path@ == longer,
            longer == start.push(pin.node),
            start.len() < graph.nodes.len(),
            start == old(path)@,
            is_path(*graph, longer),
            (inputs as nat, (Progress { steps: steps@, cycles: cycles@ })) == walk_inputs(
                *graph,
                pin.node,
                k as nat,
                longer,
                before,
            ),
        decreases count - k,
    {
        if let Some(upstream) = graph.nodes[at].drivers[k] {
            proof {
                graph.driver_exists(pin.node, k as int);
            }
            if evaluate_samples(graph, upstream, path, steps, cycles) {
                inputs += 1;
            }
        }
        k += 1;
    }
    path.pop();
    assert(path@ =~= start);
    if inputs == 0 {
        return false;
    }
    steps.push(Step::Stage { node: pin.node, port: pin.port, inputs });
    true
}

// ---------------------------------------------------------------------------
// What a walk guarantees
// ---------------------------------------------------------------------------

/// The height of the stack after running the steps on a stack of height `start`, or `None` if
/// a stage would find fewer waveforms than it pops.
pub open spec fn stack_height(steps: Seq<Step>, start: nat) -> Option<nat>
    decreases steps.len(),
{
    if steps.len() == 0 {
        Some(start)
    } else {
        match stack_height(steps.drop_last(), start) {
            None => None,
            Some(height) => match steps.last() {
                Step::Source { .. } => Some(height + 1),
                Step::Stage { inputs, .. } => if 0 < inputs <= height {
                    Some((height - inputs + 1) as nat)
                } else {
                    None
                },
            },
        }
    }
}

proof fn push_height(steps: Seq<Step>, step: Step, start: nat)
    ensures
        stack_height(steps.push(step), start) == match stack_height(steps, start) {
            None => None::<nat>,
            Some(height) => match step {
                Step::Source { .. } => Some(height + 1),
                Step::Stage { inputs, .. } => if 0 < inputs <= height {
                    Some((height - inputs + 1) as nat)
                } else {
                    None
                },
            },
        },
{
    assert(steps.push(step).drop_last() =~= steps);
}

/// The steps of a walk always fit the stack: no stage ever finds too few waveforms, and exactly
/// one waveform is left over where one arrives, none where none does.
pub proof fn steps_fit_the_stack(
    graph: ChainGraph,
    pin: OutPort,
    path: Seq<usize>,
    before: Progress,
    start: nat,
)
    requires
        stack_height(before.steps, start) is Some,
    ensures
        ({
            let (arrives, after) = walk_back(graph, pin, path, before);
            stack_height(after.steps, start) == Some(
                stack_height(before.steps, start)->0 + if arrives {
                    1nat
                } else {
                    0nat
                },
            )
        }),
    decreases graph.nodes.len() - path.len(), 0nat,
{
    if path.contains(pin.node) {
    } else if graph.node(pin.node).source {
        push_height(before.steps, Step::Source { node: pin.node }, start);
    } else if path.len() >= graph.nodes.len() {
    } else {
        let k = graph.drivers(pin.node).len();
        let longer = path.push(pin.node);
        input_steps_fit_the_stack(graph, pin.node, k, longer, before, start);
        input_count_is_bounded(graph, pin.node, k, longer, before);
        let (inputs, after) = walk_inputs(graph, pin.node, k, longer, before);
        assert(graph.node(pin.node).drivers.len() == k);
        push_height(
            after.steps,
            Step::Stage { node: pin.node, port: pin.port, inputs: inputs as usize },
            start,
        );
    }
}

proof fn input_steps_fit_the_stack(
    graph: ChainGraph,
    node: usize,
    k: nat,
    path: Seq<usize>,
    before: Progress,
    start: nat,
)
    requires
        stack_height(before.steps, start) is Some,
    ensures
        ({
            let (inputs, after) = walk_inputs(graph, node, k, path, before);
            stack_height(after.steps, start) == Some(
                stack_height(before.steps, start)->0 + inputs,
            )
        }),
    decreases graph.nodes.len() - path.len(), k,
{
    if k > 0 {
        input_steps_fit_the_stack(graph, node, (k - 1) as nat, path, before, start);
        let (inputs, middle) = walk_inputs(graph, node, (k - 1) as nat, path, before);
        if let Some(pin) = graph.drivers(node)[k - 1] {
            steps_fit_the_stack(graph, pin, path, middle, start);
        }
    }
}

/// Each node of the path is fed by the next, and the last by `node`.
pub open spec fn leads_to(graph: ChainGraph, path: Seq<usize>, node: usize) -> bool {
    &&& forall|i: int| 0 <= i < path.len() - 1 ==> graph.feeds(path[i + 1], #[trigger] path[i])
    &&& path.len() > 0 ==> graph.feeds(node, path.last())
}

proof fn path_reaches_back(graph: ChainGraph, path: Seq<usize>, node: usize, j: int)
    requires
        leads_to(graph, path, node),
        0 <= j < path.len(),
    ensures
        graph.reaches(path.last(), path[j]),
    decreases path.len() - j,
{
    if j == path.len() - 1 {
        graph.reaches_itself(path[j]);
    } else {
        path_reaches_back(graph, path, node, j + 1);
        assert(graph.feeds(path[j + 1], path[j]));
        graph.reaches_then_feeds(path.last(), path[j + 1], path[j]);
    }
}

proof fn revisit_is_a_loop(graph: ChainGraph, path: Seq<usize>, node: usize)
    requires
        leads_to(graph, path, node),
        path.contains(node),
    ensures
        graph.on_loop(node),
{
    let j = choose|j: int| 0 <= j < path.len() && path[j] == node;
    path_reaches_back(graph, path, node, j);
    assert(graph.feeds(node, path.last()));
}

proof fn longer_path_leads(graph: ChainGraph, path: Seq<usize>, node: usize, k: int)
    requires
        graph.wf(),
        graph.has(node),
        leads_to(graph, path, node),
        0 <= k < graph.drivers(node).len(),
        graph.drivers(node)[k] is Some,
    ensures
        leads_to(graph, path.push(node), graph.drivers(node)[k]->0.node),
{
    graph.driver_exists(node, k);
    let longer = path.push(node);
    assert forall|i: int| 0 <= i < longer.len() - 1 implies graph.feeds(
        longer[i + 1],
        #[trigger] longer[i],
    ) by {
        assert(longer[i] == path[i]);
        if i + 1 < path.len() {
            assert(longer[i + 1] == path[i + 1]);
        }
    }
}

/// Every listed node takes part in a feedback loop.
pub open spec fn all_on_loops(graph: ChainGraph, list: Seq<usize>) -> bool {
    forall|i: int| 0 <= i < list.len() ==> graph.on_loop(#[trigger] list[i])
}

/// Every node a walk reports takes part in a feedback loop.
pub proof fn reported_nodes_are_on_loops(
    graph: ChainGraph,
    pin: OutPort,
    path: Seq<usize>,
    before: Progress,
)
    requires
        graph.wf(),
        graph.has(pin.node),
        leads_to(graph, path, pin.node),
        all_on_loops(graph, before.cycles),
    ensures
        all_on_loops(graph, walk_back(graph, pin, path, before).1.cycles),
    decreases graph.nodes.len() - path.len(), 0nat,
{
    if path.contains(pin.node) {
        revisit_is_a_loop(graph, path, pin.node);
    } else if graph.node(pin.node).source {
    } else if path.len() >= graph.nodes.len() {
    } else {
        reported_at_inputs_are_on_loops(
            graph,
            pin.node,
            graph.drivers(pin.node).len(),
            path,
            before,
        );
    }
}

proof fn reported_at_inputs_are_on_loops(
    graph: ChainGraph,
    node: usize,
    k: nat,
    path: Seq<usize>,
    before: Progress,
)
    requires
        graph.wf(),
        graph.has(node),
        leads_to(graph, path, node),
        k <= graph.drivers(node).len(),
        path.len() < graph.nodes.len(),
        all_on_loops(graph, before.cycles),
    ensures
        all_on_loops(graph, walk_inputs(graph, node, k, path.push(node), before).1.cycles),
    decreases graph.nodes.len() - path.len() - 1, k,
{
    if k > 0 {
        reported_at_inputs_are_on_loops(graph, node, (k - 1) as nat, path, before);
        let middle = walk_inputs(graph, node, (k - 1) as nat, path.push(node), before).1;
        if let Some(pin) = graph.drivers(node)[k - 1] {
            longer_path_leads(graph, path, node, k - 1);
            graph.driver_exists(node, k - 1);
            reported_nodes_are_on_loops(graph, pin, path.push(node), middle);
        }
    }
}

/// A graph without feedback is walked without reporting any node.
pub proof fn acyclic_graph_reports_nothing(graph: ChainGraph, pin: OutPort)
    requires
        graph.wf(),
        graph.has(pin.node),
        graph.acyclic(),
    ensures
        walk_back(
            graph,
            pin,
            Seq::empty(),
            (Progress { steps: Seq::empty(), cycles: Seq::empty() }),
        ).1.cycles.len() == 0,
{
    let before = Progress { steps: Seq::empty(), cycles: Seq::empty() };
    reported_nodes_are_on_loops(graph, pin, Seq::empty(), before);
    let after = walk_back(graph, pin, Seq::empty(), before).1;
    if after.cycles.len() > 0 {
        assert(graph.on_loop(after.cycles[0]));
    }
}

/// A source feeds the node, directly or through other nodes.
pub open spec fn sourced(graph: ChainGraph, node: usize) -> bool {
    exists|source: usize|
        graph.has(source) && graph.node(source).source && #[trigger] graph.reaches(source, node)
}

proof fn sourced_through_an_input(graph: ChainGraph, node: usize)
    requires
        graph.wf(),
        graph.has(node),
        !graph.node(node).source,
    ensures
        sourced(graph, node) <==> exists|k: int|
            0 <= k < graph.drivers(node).len() && (#[trigger] graph.drivers(node)[k]) is Some
                && sourced(graph, graph.drivers(node)[k]->0.node),
{
    if sourced(graph, node) {
        let source = choose|source: usize|
            graph.has(source) && graph.node(source).source && #[trigger] graph.reaches(
                source,
                node,
            );
        let walk = choose|walk: Seq<usize>|
            walk.len() > 0 && #[trigger] graph.is_walk(walk) && walk[0] == source && walk.last()
                == node;
        assert(walk.len() > 1);
        let last = walk.len() - 2;
        let feeder = walk[last];
        assert(graph.feeds(walk[last], walk[last + 1]));
        let shorter = walk.drop_last();
        assert forall|i: int| 0 <= i < shorter.len() - 1 implies graph.feeds(
            #[trigger] shorter[i],
            shorter[i + 1],
        ) by {
            assert(shorter[i] == walk[i] && shorter[i + 1] == walk[i + 1]);
        }
        assert(graph.is_walk(shorter));
        assert(shorter[0] == source && shorter.last() == feeder);
        assert(graph.reaches(source, feeder));
        let k = choose|k: int| #[trigger] graph.feeds_at(feeder, node, k);
        assert(graph.drivers(node)[k] is Some && graph.drivers(node)[k]->0.node == feeder);
    }
    if exists|k: int|
        0 <= k < graph.drivers(node).len() && (#[trigger] graph.drivers(node)[k]) is Some && sourced(
            graph,
            graph.drivers(node)[k]->0.node,
        ) {
        let k = choose|k: int|
            0 <= k < graph.drivers(node).len() && (#[trigger] graph.drivers(node)[k]) is Some
                && sourced(graph, graph.drivers(node)[k]->0.node);
        let feeder = graph.drivers(node)[k]->0.node;
        graph.driver_exists(node, k);
        let source = choose|source: usize|
            graph.has(source) && graph.node(source).source && #[trigger] graph.reaches(
                source,
                feeder,
            );
        graph.reaches_then_feeds(source, feeder, node);
    }
}

/// In a graph without feedback a waveform arrives exactly where a source feeds the node.
pub proof fn waveform_arrives_from_a_source(
    graph: ChainGraph,
    pin: OutPort,
    path: Seq<usize>,
    before: Progress,
)
    requires
        graph.wf(),
        graph.acyclic(),
        graph.has(pin.node),
        is_path(graph, path),
        leads_to(graph, path, pin.node),
    ensures
        walk_back(graph, pin, path, before).0 == sourced(graph, pin.node),
    decreases graph.nodes.len() - path.len(), 0nat,
{
    if path.contains(pin.node) {
        revisit_is_a_loop(graph, path, pin.node);
    } else if graph.node(pin.node).source {
        graph.reaches_itself(pin.node);
    } else {
        path_grows(graph, path, pin.node);
        let k = graph.drivers(pin.node).len();
        inputs_arrive_from_sources(graph, pin.node, k, path, before);
        sourced_through_an_input(graph, pin.node);
    }
}

proof fn inputs_arrive_from_sources(
    graph: ChainGraph,
    node: usize,
    k: nat,
    path: Seq<usize>,
    before: Progress,
)
    requires
        graph.wf(),
        graph.acyclic(),
        graph.has(node),
        path.len() < graph.nodes.len(),
        is_path(graph, path.push(node)),
        leads_to(graph, path, node),
        k <= graph.drivers(node).len(),
    ensures
        walk_inputs(graph, node, k, path.push(node), before).0 > 0 <==> exists|j: int|
            0 <= j < k && (#[trigger] graph.drivers(node)[j]) is Some && sourced(
                graph,
                graph.drivers(node)[j]->0.node,
            ),
    decreases graph.nodes.len() - path.len() - 1, k,
{
    if k > 0 {
        inputs_arrive_from_sources(graph, node, (k - 1) as nat, path, before);
        let middle = walk_inputs(graph, node, (k - 1) as nat, path.push(node), before).1;
        if let Some(pin) = graph.drivers(node)[k - 1] {
            longer_path_leads(graph, path, node, k - 1);
            graph.driver_exists(node, k - 1);
            waveform_arrives_from_a_source(graph, pin, path.push(node), middle);
            assert(graph.drivers(node)[k - 1] is Some);
        }
        assert forall|j: int|
            0 <= j < k && (#[trigger] graph.drivers(node)[j]) is Some && sourced(
                graph,
                graph.drivers(node)[j]->0.node,
            ) implies walk_inputs(graph, node, k, path.push(node), before).0 > 0 by {
            if j < k - 1 {
            }
        }
    }
}

// ---------------------------------------------------------------------------
// The main line
// ---------------------------------------------------------------------------

/// The outputs met when following first inputs backwards from `cursor`, and the node at which
/// the trace came round to a node of `seen` or its own.
pub open spec fn trace_back(graph: ChainGraph, cursor: Option<OutPort>, seen: Seq<usize>) -> (
    Seq<OutPort>,
    Option<usize>,
)
    decreases graph.nodes.len() - seen.len(),
{
    match cursor {
        None => (Seq::empty(), None),
        Some(pin) => if seen.contains(pin.node) {
            (Seq::empty(), Some(pin.node))
        } else if graph.node(pin.node).source || graph.drivers(pin.node).len() == 0 {
            (seq![pin], None)
        } else if seen.len() >= graph.nodes.len() {
            // Not reached, as in the walk above.
            (Seq::empty(), None)
        } else {
            let (rest, cycle) = trace_back(
                graph,
                graph.drivers(pin.node)[0],
                seen.push(pin.node),
            );
            (seq![pin] + rest, cycle)
        },
    }
}

/// What drives the first input of a node, if it has one and it is connected.
pub open spec fn first_driver(graph: ChainGraph, id: usize) -> Option<OutPort> {
    if graph.drivers(id).len() > 0 {
        graph.drivers(id)[0]
    } else {
        None
    }
}

/// Traces the chain feeding a converter input. Returns it from the source forward, and the node
/// at which it loops back on itself, if it does.
pub fn chain_order(graph: &ChainGraph, adc: usize) -> (traced: (Vec<OutPort>, Vec<usize>))
    requires
        graph.wf(),
        graph.has(adc),
    ensures
        ({
            let (back, cycle) = trace_back(*graph, first_driver(*graph, adc), Seq::empty());
            &&& traced.0@ == back.reverse()
            &&& traced.1@ == match cycle {
                None => Seq::<usize>::empty(),
                Some(node) => seq![node],
            }
        }),
        forall|i: int| 0 <= i < traced.0.len() ==> graph.has((#[trigger] traced.0[i]).node),
{
    let ghost (all_back, all_cycle) = trace_back(*graph, first_driver(*graph, adc), Seq::empty());
    let mut back: Vec<OutPort> = Vec::new();
    let mut cycles: Vec<usize> = Vec::new();
    let mut seen: Vec<usize> = Vec::new();
    let start: usize = graph.index_of(adc).unwrap();
    let mut cursor: Option<OutPort> = None;
    if graph.nodes[start].drivers.len() > 0 {
        cursor = graph.nodes[start].drivers[0];
        proof {
            if cursor is Some {
                graph.driver_exists(adc, 0);
            }
        }
    }
    assert(Seq::<OutPort>::empty() + all_back =~= all_back);
    assert(forall|b: Seq<OutPort>| #[trigger] (b + Seq::<OutPort>::empty()) =~= b);
    while cursor.is_some()
        invariant_except_break
            graph.wf(),
            is_path(*graph, seen@),
            cursor is Some ==> graph.has(cursor->0.node),
            cycles.len() == 0,
            (all_back, all_cycle) == trace_back(
                *graph,
                first_driver(*graph, adc),
                Seq::empty(),
            ),
            back@ + trace_back(*graph, cursor, seen@).0 == all_back,
            trace_back(*graph, cursor, seen@).1 == all_cycle,
            forall|i: int| 0 <= i < back.len() ==> graph.has((#[trigger] back@[i]).node),
        ensures
            back@ == all_back,
            cycles@ == match all_cycle {
                None => Seq::<usize>::empty(),
                Some(node) => seq![node],
            },
            forall|i: int| 0 <= i < back.len() ==> graph.has((#[trigger] back@[i]).node),
        decreases graph.nodes.len() - seen.len(),
    {
        let pin: OutPort = cursor.unwrap();
        if holds(&seen, pin.node) {
            assert(back@ + Seq::<OutPort>::empty() =~= back@);
            cycles.push(pin.node);
            assert(cycles@ =~= seq![pin.node]);
            break;
        }
        proof {
            path_grows(*graph, seen@, pin.node);
        }
        let ghost old_back = back@;
        let ghost old_seen = seen@;
        seen.push(pin.node);
        back.push(pin);
        let at: usize = graph.index_of(pin.node).unwrap();
        if graph.nodes[at].source || graph.nodes[at].drivers.len() == 0 {
            assert(back@ =~= old_back + seq![pin]);
            break;
        }
        cursor = graph.nodes[at].drivers[0];
        proof {
            if cursor is Some {
                graph.driver_exists(pin.node, 0);
            }
            let rest = trace_back(*graph, cursor, seen@).0;
            assert(old_back + (seq![pin] + rest) =~= back@ + rest);
        }
    }
    let chain: Vec<OutPort> = reversed(&back);
    assert forall|i: int| 0 <= i < chain.len() implies graph.has((#[trigger] chain[i]).node) by {
        assert(chain[i] == back@[back.len() - 1 - i]);
    }
    (chain, cycles)
}

fn reversed(list: &Vec<OutPort>) -> (turned: Vec<OutPort>)
    ensures
        turned@ == list@.reverse(),
{
    let mut turned: Vec<OutPort> = Vec::new();
    let mut i: usize = list.len();
    while i > 0
        invariant
            i <= list.len(),
            turned.len() == list.len() - i,
            forall|j: int| 0 <= j < turned.len() ==> turned@[j] == list@[list.len() - 1 - j],
        decreases i,
    {
        i -= 1;
        turned.push(list[i]);
    }
    assert(turned@ =~= list@.reverse());
    turned
}

/// A traced chain visits no node twice, and each of its outputs drives the first input of the
/// node it met before.
pub proof fn trace_is_a_line(graph: ChainGraph, cursor: Option<OutPort>, seen: Seq<usize>)
    ensures
        ({
            let back = trace_back(graph, cursor, seen).0;
            &&& forall|i: int| 0 <= i < back.len() ==> !seen.contains((#[trigger] back[i]).node)
            &&& forall|i: int, j: int|
                0 <= i < j < back.len() ==> (#[trigger] back[i]).node != (#[trigger] back[j]).node
            &&& forall|i: int|
                0 <= i < back.len() - 1 ==> graph.drivers((#[trigger] back[i]).node)[0] == Some(
                    back[i + 1],
                )
            &&& back.len() > 0 ==> cursor == Some(back[0])
        }),
    decreases graph.nodes.len() - seen.len(),
{
    if let Some(pin) = cursor {
        if !seen.contains(pin.node) && !(graph.node(pin.node).source || graph.drivers(
            pin.node,
        ).len() == 0) && seen.len() < graph.nodes.len() {
            let longer = seen.push(pin.node);
            let next = graph.drivers(pin.node)[0];
            trace_is_a_line(graph, next, longer);
            let rest = trace_back(graph, next, longer).0;
            let back = seq![pin] + rest;
            assert(longer[seen.len() as int] == pin.node);
            assert forall|x: usize| seen.contains(x) implies longer.contains(x) by {
                let i = choose|i: int| 0 <= i < seen.len() && seen[i] == x;
                assert(longer[i] == x);
            }
            assert(longer.contains(pin.node));
            assert forall|i: int| 0 <= i < back.len() implies !seen.contains(
                (#[trigger] back[i]).node,
            ) by {
                if i > 0 {
                    assert(back[i] == rest[i - 1]);
                }
            }
            assert forall|i: int, j: int| 0 <= i < j < back.len() implies (#[trigger] back[i]).node
                != (#[trigger] back[j]).node by {
                assert(back[j] == rest[j - 1]);
                if i > 0 {
                    assert(back[i] == rest[i - 1]);
                }
            }
            assert forall|i: int| 0 <= i < back.len() - 1 implies graph.drivers(
                (#[trigger] back[i]).node,
            )[0] == Some(back[i + 1]) by {
                assert(back[i + 1] == rest[i]);
                if i > 0 {
                    assert(back[i] == rest[i - 1]);
                }
            }
        }
    }
}

/// In a graph without feedback a trace never comes round to a node it has met.
pub proof fn acyclic_trace_meets_no_loop(graph: ChainGraph, cursor: Option<OutPort>, seen: Seq<usize>)
    requires
        graph.wf(),
        graph.acyclic(),
        is_path(graph, seen),
        cursor is Some ==> graph.has(cursor->0.node) && leads_to(graph, seen, cursor->0.node),
    ensures
        trace_back(graph, cursor, seen).1 is None,
        cursor is Some ==> trace_back(graph, cursor, seen).0.len() > 0,
    decreases graph.nodes.len() - seen.len(),
{
    if let Some(pin) = cursor {
        if seen.contains(pin.node) {
            revisit_is_a_loop(graph, seen, pin.node);
        } else if !(graph.node(pin.node).source || graph.drivers(pin.node).len() == 0) {
            path_grows(graph, seen, pin.node);
            if graph.drivers(pin.node)[0] is Some {
                graph.driver_exists(pin.node, 0);
                longer_path_leads(graph, seen, pin.node, 0);
            }
            acyclic_trace_meets_no_loop(graph, graph.drivers(pin.node)[0], seen.push(pin.node));
        }
    }
}

// ---------------------------------------------------------------------------
// Levels
// ---------------------------------------------------------------------------

/// The list with the level of a node noted: the first entry for the node replaced, or a new one
/// appended.
pub open spec fn noted<L>(levels: Seq<(usize, L)>, node: usize, level: L) -> Seq<(usize, L)>
    decreases levels.len(),
{
    if levels.len() == 0 {
        seq![(node, level)]
    } else if levels[0].0 == node {
        levels.update(0, (node, level))
    } else {
        seq![levels[0]] + noted(levels.drop_first(), node, level)
    }
}

proof fn noted_at<L>(levels: Seq<(usize, L)>, node: usize, level: L, i: int)
    requires
        0 <= i <= levels.len(),
        forall|j: int| 0 <= j < i ==> (#[trigger] levels[j]).0 != node,
        i < levels.len() ==> levels[i].0 == node,
    ensures
        noted(levels, node, level) == if i < levels.len() {
            levels.update(i, (node, level))
        } else {
            levels.push((node, level))
        },
    decreases i,
{
    if levels.len() == 0 {
        assert(levels.push((node, level)) =~= seq![(node, level)]);
    } else if i > 0 {
        let rest = levels.drop_first();
        assert(levels[0].0 != node);
        assert forall|j: int| 0 <= j < i - 1 implies (#[trigger] rest[j]).0 != node by {
            assert(rest[j] == levels[j + 1]);
        }
        if i < levels.len() {
            assert(rest[i - 1] == levels[i]);
        }
        noted_at(rest, node, level, i - 1);
        if i < levels.len() {
            assert(seq![levels[0]] + rest.update(i - 1, (node, level)) =~= levels.update(
                i,
                (node, level),
            ));
        } else {
            assert(seq![levels[0]] + rest.push((node, level)) =~= levels.push((node, level)));
        }
    }
}

/// Notes the level leaving a node, replacing any earlier entry.
pub fn record_level<L>(levels: &mut Vec<(usize, L)>, node: usize, level: L)
    ensures
        final(levels)@ == noted(old(levels)@, node, level),
{
    let mut i: usize = 0;
    while i < levels.len()
        invariant
            i <= levels.len(),
            levels@ == old(levels)@,
            forall|j: int| 0 <= j < i ==> (#[trigger] levels@[j]).0 != node,
        decreases levels.len() - i,
    {
        if levels[i].0 == node {
            proof {
                noted_at(levels@, node, level, i as int);
            }
            levels[i] = (node, level);
            return;
        }
        i += 1;
    }
    proof {
        noted_at(levels@, node, level, i as int);
    }
    levels.push((node, level));
}

/// A list in which every node has at most one entry stays one.
pub proof fn noting_keeps_entries_unique<L>(levels: Seq<(usize, L)>, node: usize, level: L)
    requires
        forall|i: int, j: int|
            0 <= i < j < levels.len() ==> (#[trigger] levels[i]).0 != (#[trigger] levels[j]).0,
    ensures
        forall|i: int, j: int|
            0 <= i < j < noted(levels, node, level).len() ==> (#[trigger] noted(
                levels,
                node,
                level,
            )[i]).0 != (#[trigger] noted(levels, node, level)[j]).0,
{
    if exists|i: int| 0 <= i < levels.len() && (#[trigger] levels[i]).0 == node {
        let i = choose|i: int| 0 <= i < levels.len() && (#[trigger] levels[i]).0 == node;
        assert forall|j: int| 0 <= j < i implies (#[trigger] levels[j]).0 != node by {
            assert(levels[j].0 != levels[i].0);
        }
        noted_at(levels, node, level, i);
    } else {
        noted_at(levels, node, level, levels.len() as int);
    }
}

// ---------------------------------------------------------------------------
// Running a plan
// ---------------------------------------------------------------------------

/// What one step of an evaluation does to the stack, and what it notes.
pub open spec fn steps_to<W, L, S: Fn(usize) -> (W, L), P: Fn(usize, usize, Vec<W>) -> (W, L)>(
    source: S,
    stage: P,
    step: Step,
    before: Seq<W>,
    after: Seq<W>,
    noted: (usize, L),
) -> bool {
    match step {
        Step::Source { node } => {
            &&& after.len() == before.len() + 1
            &&& after.drop_last() == before
            &&& noted.0 == node
            &&& call_ensures(source, (node,), (after.last(), noted.1))
        },
        Step::Stage { node, port, inputs } => {
            &&& inputs <= before.len()
            &&& after.len() == before.len() - inputs + 1
            &&& after.drop_last() == before.take(before.len() - inputs)
            &&& noted.0 == node
            &&& exists|list: Vec<W>|
                list@ == before.skip(before.len() - inputs) && #[trigger] call_ensures(
                    stage,
                    (node, port, list),
                    (after.last(), noted.1),
                )
        },
    }
}

/// A run of the steps: the stack before each of them and after the last, and what each noted.
pub open spec fn is_run<W, L, S: Fn(usize) -> (W, L), P: Fn(usize, usize, Vec<W>) -> (W, L)>(
    source: S,
    stage: P,
    steps: Seq<Step>,
    stacks: Seq<Seq<W>>,
    notes: Seq<(usize, L)>,
) -> bool {
    &&& stacks.len() == notes.len() + 1
    &&& notes.len() <= steps.len()
    &&& stacks[0] == Seq::<W>::empty()
    &&& forall|i: int|
        0 <= i < notes.len() ==> steps_to(
            source,
            stage,
            steps[i],
            stacks[i],
            stacks[i + 1],
            #[trigger] notes[i],
        )
}

/// The levels noted by the first `n` steps, later ones replacing earlier ones.
pub open spec fn levels_after<L>(notes: Seq<(usize, L)>, n: int) -> Seq<(usize, L)>
    decreases n,
{
    if n <= 0 {
        Seq::empty()
    } else {
        noted(levels_after(notes, n - 1), notes[n - 1].0, notes[n - 1].1)
    }
}

proof fn levels_depend_on_prefix<L>(a: Seq<(usize, L)>, b: Seq<(usize, L)>, n: int)
    requires
        0 <= n <= a.len(),
        n <= b.len(),
        forall|i: int| 0 <= i < n ==> a[i] == b[i],
    ensures
        levels_after(a, n) == levels_after(b, n),
    decreases n,
{
    if n > 0 {
        levels_depend_on_prefix(a, b, n - 1);
    }
}

proof fn height_of_prefix(steps: Seq<Step>, n: int, start: nat)
    requires
        0 <= n <= steps.len(),
        stack_height(steps, start) is Some,
    ensures
        stack_height(steps.take(n), start) is Some,
    decreases steps.len() - n,
{
    if n < steps.len() {
        height_of_prefix(steps, n + 1, start);
        assert(steps.take(n + 1).drop_last() =~= steps.take(n));
    } else {
        assert(steps.take(n) =~= steps);
    }
}

/// Runs the steps of a plan. `source` generates the waveform of a source node, `stage` passes
/// the waveforms of a node's connected inputs through it; both also measure the level that
/// leaves the node. Returns the waveform left at the end and the levels of all nodes.
pub fn run_plan<W, L, S: Fn(usize) -> (W, L), P: Fn(usize, usize, Vec<W>) -> (W, L)>(
    steps: &Vec<Step>,
    source: S,
    stage: P,
) -> (result: (W, Vec<(usize, L)>))
    requires
        stack_height(steps@, 0) == Some(1nat),
        forall|node: usize| #[trigger] call_requires(source, (node,)),
        forall|node: usize, port: usize, inputs: Vec<W>| #[trigger]
            call_requires(stage, (node, port, inputs)),
    ensures
        exists|stacks: Seq<Seq<W>>, notes: Seq<(usize, L)>|
            {
                &&& #[trigger] is_run(source, stage, steps@, stacks, notes)
                &&& notes.len() == steps.len()
                &&& stacks.last() == seq![result.0]
                &&& result.1@ == levels_after(notes, notes.len() as int)
            },
{
    let mut stack: Vec<W> = Vec::new();
    let mut levels: Vec<(usize, L)> = Vec::new();
    let ghost mut stacks: Seq<Seq<W>> = seq![Seq::empty()];
    let ghost mut notes: Seq<(usize, L)> = Seq::empty();
    let mut i: usize = 0;
    assert(steps@.take(0) =~= Seq::empty());
    while i < steps.len()
        invariant
            stack_height(steps@, 0) == Some(1nat),
            forall|node: usize| #[trigger] call_requires(source, (node,)),
            forall|node: usize, port: usize, inputs: Vec<W>| #[trigger]
                call_requires(stage, (node, port, inputs)),
            i <= steps.len(),
            notes.len() == i,
            is_run(source, stage, steps@, stacks, notes),
            stacks.last() == stack@,
            stack_height(steps@.take(i as int), 0) == Some(stack@.len()),
            levels@ == levels_after(notes, i as int),
        decreases steps.len() - i,
    {
        let ghost before = stack@;
        proof {
            height_of_prefix(steps@, i + 1, 0);
            assert(steps@.take(i + 1).drop_last() =~= steps@.take(i as int));
            assert(steps@.take(i + 1).last() == steps@[i as int]);
        }
        let (node, waveform, level) = match steps[i] {
            Step::Source { node } => {
                let (waveform, level) = source(node);
                (node, waveform, level)
            },
            Step::Stage { node, port, inputs } => {
                let keep: usize = stack.len() - inputs;
                let list: Vec<W> = stack.split_off(keep);
                assert(list@ =~= before.skip(before.len() - inputs));
                let (waveform, level) = stage(node, port, list);
                assert(call_ensures(stage, (node, port, list), (waveform, level)));
                (node, waveform, level)
            },
        };
        let ghost kept = stack@;
        stack.push(waveform);
        proof {
            let note = (node, level);
            let old_notes = notes;
            let old_stacks = stacks;
            notes = notes.push(note);
            stacks = stacks.push(stack@);
            assert(stack@.drop_last() =~= kept);
            assert(stack@.last() == waveform);
            assert(steps_to(source, stage, steps@[i as int], before, stack@, note));
            assert forall|j: int| 0 <= j < notes.len() implies steps_to(
                source,
                stage,
                steps@[j],
                stacks[j],
                stacks[j + 1],
                #[trigger] notes[j],
            ) by {
                if j < i {
                    assert(notes[j] == old_notes[j]);
                    assert(stacks[j] == old_stacks[j] && stacks[j + 1] == old_stacks[j + 1]);
                } else {
                    assert(stacks[j] == before);
                }
            }
            levels_depend_on_prefix(old_notes, notes, i as int);
        }
        record_level(&mut levels, node, level);
        i += 1;
    }
    assert(steps@.take(i as int) =~= steps@);
    let waveform: W = stack.pop().unwrap();
    assert(stacks.last() =~= seq![waveform]);
    (waveform, levels)
}

/// Two runs of the same steps stay alike. If the waveforms of every source are related, and a
/// stage whose inputs are related in the same way gives related waveforms, then so are the
/// waveforms left at the end. The relation may say that two waveforms are the same, or the same
/// to within rounding, or the same where two blocks of different length overlap.
pub proof fn runs_stay_alike<
    W,
    L,
    SA: Fn(usize) -> (W, L),
    PA: Fn(usize, usize, Vec<W>) -> (W, L),
    SB: Fn(usize) -> (W, L),
    PB: Fn(usize, usize, Vec<W>) -> (W, L),
>(
    source: SA,
    stage: PA,
    other_source: SB,
    other_stage: PB,
    steps: Seq<Step>,
    alike: spec_fn(W, W) -> bool,
    stacks: Seq<Seq<W>>,
    notes: Seq<(usize, L)>,
    other_stacks: Seq<Seq<W>>,
    other_notes: Seq<(usize, L)>,
    n: int,
)
    requires
        is_run(source, stage, steps, stacks, notes),
        is_run(other_source, other_stage, steps, other_stacks, other_notes),
        0 <= n <= notes.len(),
        n <= other_notes.len(),
        forall|node: usize, a: (W, L), b: (W, L)|
            #[trigger] call_ensures(source, (node,), a) && #[trigger] call_ensures(
                other_source,
                (node,),
                b,
            ) ==> alike(a.0, b.0),
        forall|node: usize, port: usize, p: Vec<W>, q: Vec<W>, a: (W, L), b: (W, L)|
            are_alike(alike, p@, q@) && #[trigger] call_ensures(stage, (node, port, p), a)
                && #[trigger] call_ensures(other_stage, (node, port, q), b) ==> alike(a.0, b.0),
    ensures
        are_alike(alike, stacks[n], other_stacks[n]),
    decreases n,
{
    if n > 0 {
        let i = n - 1;
        runs_stay_alike(
            source,
            stage,
            other_source,
            other_stage,
            steps,
            alike,
            stacks,
            notes,
            other_stacks,
            other_notes,
            i,
        );
        let (a, b) = (stacks[i], other_stacks[i]);
        let (c, d) = (stacks[n], other_stacks[n]);
        assert(steps_to(source, stage, steps[i], a, c, notes[i]));
        assert(steps_to(other_source, other_stage, steps[i], b, d, other_notes[i]));
        match steps[i] {
            Step::Source { node } => {
                assert(alike(c.last(), d.last()));
                assert forall|k: int| 0 <= k < c.len() implies alike(#[trigger] c[k], d[k]) by {
                    if k < a.len() {
                        assert(c.drop_last()[k] == a[k] && d.drop_last()[k] == b[k]);
                    }
                }
            },
            Step::Stage { node, port, inputs } => {
                let p = choose|list: Vec<W>|
                    list@ == a.skip(a.len() - inputs) && #[trigger] call_ensures(
                        stage,
                        (node, port, list),
                        (c.last(), notes[i].1),
                    );
                let q = choose|list: Vec<W>|
                    list@ == b.skip(b.len() - inputs) && #[trigger] call_ensures(
                        other_stage,
                        (node, port, list),
                        (d.last(), other_notes[i].1),
                    );
                assert(are_alike(alike, p@, q@));
                assert(alike(c.last(), d.last()));
                assert forall|k: int| 0 <= k < c.len() implies alike(#[trigger] c[k], d[k]) by {
                    if k < c.len() - 1 {
                        assert(c.drop_last()[k] == a[k] && d.drop_last()[k] == b[k]);
                    }
                }
            },
        }
    }
}

/// The waveforms of two lists are related one by one.
pub open spec fn are_alike<W>(alike: spec_fn(W, W) -> bool, a: Seq<W>, b: Seq<W>) -> bool {
    a.len() == b.len() && forall|k: int| 0 <= k < a.len() ==> alike(#[trigger] a[k], b[k])
}

// ---------------------------------------------------------------------------
// What arrives at a node
// ---------------------------------------------------------------------------

/// `sum` is the waveform `a` with `b` added to it, as far as `b` goes.
pub open spec fn is_added<V, F: Fn(V, V) -> V>(plus: F, a: Seq<V>, b: Seq<V>, sum: Seq<V>) -> bool {
    &&& sum.len() == a.len()
    &&& forall|i: int|
        0 <= i < a.len() ==> if i < b.len() {
            call_ensures(plus, (a[i], b[i]), #[trigger] sum[i])
        } else {
            sum[i] == a[i]
        }
}

/// `sums[k]` is the sum of the waveforms up to number `k`, in order.
pub open spec fn are_running_sums<V, F: Fn(V, V) -> V>(
    plus: F,
    inputs: Seq<Vec<V>>,
    sums: Seq<Seq<V>>,
) -> bool {
    &&& 0 < sums.len() <= inputs.len()
    &&& sums[0] == inputs[0]@
    &&& forall|k: int|
        0 < k < sums.len() ==> is_added(plus, sums[k - 1], inputs[k]@, #[trigger] sums[k])
}

/// The waveform that arrives at a node: a combiner sums the voltages of its connected inputs,
/// any other node takes the first of them.
pub open spec fn is_arriving<V, F: Fn(V, V) -> V>(
    plus: F,
    combines: bool,
    inputs: Seq<Vec<V>>,
    arriving: Seq<V>,
) -> bool {
    if combines {
        exists|sums: Seq<Seq<V>>| #[trigger]
            are_running_sums(plus, inputs, sums) && sums.len() == inputs.len() && sums.last()
                == arriving
    } else {
        arriving == inputs[0]@
    }
}

fn add_onto<V: Copy, F: Fn(V, V) -> V>(sum: &mut Vec<V>, other: &Vec<V>, plus: &F)
    requires
        forall|a: V, b: V| #[trigger] call_requires(*plus, (a, b)),
    ensures
        is_added(*plus, old(sum)@, other@, final(sum)@),
{
    let ghost before = sum@;
    let mut i: usize = 0;
    while i < sum.len() && i < other.len()
        invariant
            forall|a: V, b: V| #[trigger] call_requires(*plus, (a, b)),
            sum.len() == before.len(),
            i <= sum.len(),
            i <= other.len(),
            forall|j: int|
                0 <= j < i ==> call_ensures(*plus, (before[j], other[j]), #[trigger] sum@[j]),
            forall|j: int| i <= j < sum.len() ==> #[trigger] sum@[j] == before[j],
        decreases sum.len() - i,
    {
        let value: V = (*plus)(sum[i], other[i]);
        sum[i] = value;
        i += 1;
    }
}

/// The waveform that arrives at a node with connected inputs.
pub fn arriving_waveform<V: Copy, F: Fn(V, V) -> V>(
    node: &RfNode,
    inputs: &Vec<Vec<V>>,
    plus: &F,
) -> (arriving: Vec<V>)
    requires
        inputs.len() > 0,
        forall|a: V, b: V| #[trigger] call_requires(*plus, (a, b)),
    ensures
        is_arriving(*plus, *node is Combiner, inputs@, arriving@),
{
    let mut sum: Vec<V> = copy_of(&inputs[0]);
    if matches!(node, RfNode::Combiner(_)) {
        let ghost mut sums: Seq<Seq<V>> = seq![sum@];
        let mut k: usize = 1;
        while k < inputs.len()
            invariant
                forall|a: V, b: V| #[trigger] call_requires(*plus, (a, b)),
                1 <= k <= inputs.len(),
                are_running_sums(*plus, inputs@, sums),
                sums.len() == k,
                sums.last() == sum@,
            decreases inputs.len() - k,
        {
            add_onto(&mut sum, &inputs[k], plus);
            proof {
                let old_sums = sums;
                sums = sums.push(sum@);
                assert forall|j: int| 0 < j < sums.len() implies is_added(
                    *plus,
                    sums[j - 1],
                    inputs@[j]@,
                    #[trigger] sums[j],
                ) by {
                    if j < k {
                        assert(old_sums[j] == sums[j]);
                    }
                }
            }
            k += 1;
        }
        assert(are_running_sums(*plus, inputs@, sums));
    }
    sum
}

/// Where adding gives one result for the same values, the waveforms that arrive at a node are the
/// same as far as its inputs are: a longer block begins as a shorter one does.
pub proof fn arriving_waveforms_begin_alike<V, F: Fn(V, V) -> V>(
    plus: F,
    combines: bool,
    inputs: Seq<Vec<V>>,
    longer: Seq<Vec<V>>,
    m: int,
    arriving: Seq<V>,
    other: Seq<V>,
)
    requires
        0 < inputs.len(),
        inputs.len() == longer.len(),
        0 <= m,
        forall|a: V, b: V, x: V, y: V|
            #[trigger] call_ensures(plus, (a, b), x) && #[trigger] call_ensures(plus, (a, b), y)
                ==> x == y,
        forall|k: int|
            0 <= k < inputs.len() ==> m <= (#[trigger] inputs[k]).len() && m <= longer[k].len()
                && inputs[k]@.take(m) == longer[k]@.take(m),
        is_arriving(plus, combines, inputs, arriving),
        is_arriving(plus, combines, longer, other),
    ensures
        m <= arriving.len(),
        m <= other.len(),
        arriving.take(m) == other.take(m),
{
    assert(inputs[0]@.take(m) == longer[0]@.take(m));
    if combines {
        let a = choose|sums: Seq<Seq<V>>| #[trigger]
            are_running_sums(plus, inputs, sums) && sums.len() == inputs.len() && sums.last()
                == arriving;
        let b = choose|sums: Seq<Seq<V>>| #[trigger]
            are_running_sums(plus, longer, sums) && sums.len() == longer.len() && sums.last()
                == other;
        sums_begin_alike(plus, inputs, longer, m, a, b, inputs.len() - 1);
    }
}

proof fn sums_begin_alike<V, F: Fn(V, V) -> V>(
    plus: F,
    inputs: Seq<Vec<V>>,
    longer: Seq<Vec<V>>,
    m: int,
    a: Seq<Seq<V>>,
    b: Seq<Seq<V>>,
    n: int,
)
    requires
        inputs.len() == longer.len(),
        0 <= m,
        forall|p: V, q: V, x: V, y: V|
            #[trigger] call_ensures(plus, (p, q), x) && #[trigger] call_ensures(plus, (p, q), y)
                ==> x == y,
        forall|k: int|
            0 <= k < inputs.len() ==> m <= (#[trigger] inputs[k]).len() && m <= longer[k].len()
                && inputs[k]@.take(m) == longer[k]@.take(m),
        are_running_sums(plus, inputs, a),
        are_running_sums(plus, longer, b),
        0 <= n < a.len(),
        n < b.len(),
    ensures
        m <= a[n].len(),
        m <= b[n].len(),
        a[n].take(m) == b[n].take(m),
    decreases n,
{
    assert(inputs[n]@.take(m) == longer[n]@.take(m));
    if n > 0 {
        sums_begin_alike(plus, inputs, longer, m, a, b, n - 1);
        assert(is_added(plus, a[n - 1], inputs[n]@, a[n]));
        assert(is_added(plus, b[n - 1], longer[n]@, b[n]));
        assert forall|i: int| 0 <= i < m implies #[trigger] a[n][i] == b[n][i] by {
            assert(a[n - 1].take(m)[i] == b[n - 1].take(m)[i]);
            assert(inputs[n]@.take(m)[i] == longer[n]@.take(m)[i]);
        }
        assert(a[n].take(m) =~= b[n].take(m));
    } else {
        assert(a[0] == inputs[0]@ && b[0] == longer[0]@);
    }
}

/// What arrives at a combiner with two inputs of one length is their sum, sample by sample; what
/// arrives at any other node is its first input, whatever else is connected.
pub proof fn combiners_add_sample_by_sample<V, F: Fn(V, V) -> V>(
    plus: F,
    combines: bool,
    inputs: Seq<Vec<V>>,
    arriving: Seq<V>,
    i: int,
)
    requires
        0 < inputs.len(),
        is_arriving(plus, combines, inputs, arriving),
        0 <= i < inputs[0].len(),
    ensures
        arriving.len() == inputs[0].len(),
        !combines || inputs.len() == 1 ==> arriving[i] == inputs[0][i],
        combines && inputs.len() == 2 && i < inputs[1].len() ==> call_ensures(
            plus,
            (inputs[0][i], inputs[1][i]),
            arriving[i],
        ),
        combines && inputs.len() == 2 && i >= inputs[1].len() ==> arriving[i] == inputs[0][i],
{
    if combines {
        let sums = choose|sums: Seq<Seq<V>>| #[trigger]
            are_running_sums(plus, inputs, sums) && sums.len() == inputs.len() && sums.last()
                == arriving;
        sums_keep_their_length(plus, inputs, sums, inputs.len() - 1);
        if inputs.len() == 2 {
            assert(is_added(plus, sums[0], inputs[1]@, sums[1]));
        }
    }
}

proof fn sums_keep_their_length<V, F: Fn(V, V) -> V>(
    plus: F,
    inputs: Seq<Vec<V>>,
    sums: Seq<Seq<V>>,
    n: int,
)
    requires
        are_running_sums(plus, inputs, sums),
        0 <= n < sums.len(),
    ensures
        sums[n].len() == inputs[0].len(),
    decreases n,
{
    if n > 0 {
        sums_keep_their_length(plus, inputs, sums, n - 1);
        assert(is_added(plus, sums[n - 1], inputs[n]@, sums[n]));
    }
}

} // verus!
