//! What has to be computed to evaluate the chain feeding one converter block.

use vstd::prelude::*;
use egui_snarl::Snarl;
use crate::chain::{
    acyclic_trace_meets_no_loop, chain_order, evaluate_samples, first_driver, is_path,
    reported_nodes_are_on_loops, sourced, stack_height, steps_fit_the_stack, trace_back,
    walk_back, waveform_arrives_from_a_source, Progress, Step,
};
use crate::graph::{ChainGraph, OutPort};
use crate::nodes::RfNode;
use crate::smooth::{is_cheapest, next_smooth_size};
use crate::wiring::{find_adc_input, is_adc_input, is_snapshot, node_table, read_graph};

verus! {

/// Floor and ceiling on the run-up generated ahead of a block, in wideband samples.
pub const MIN_RUN_UP_SAMPLES: usize = 512;

pub const MAX_RUN_UP_SAMPLES: usize = 32768;

/// The run-up asked for, brought into its bounds.
pub open spec fn run_up_wanted(want: int) -> int {
    if want < MIN_RUN_UP_SAMPLES {
        MIN_RUN_UP_SAMPLES as int
    } else if want > MAX_RUN_UP_SAMPLES {
        MAX_RUN_UP_SAMPLES as int
    } else {
        want
    }
}

/// Samples to generate ahead of a block of `num_samples` so that the slowest stage, which rings
/// for `want` samples, has settled; rounded up so that the whole block transforms fast.
pub fn run_up(num_samples: usize, want: usize) -> (guard: usize)
    requires
        num_samples <= usize::MAX / 16 - MAX_RUN_UP_SAMPLES,
    ensures
        is_cheapest(
            (num_samples + run_up_wanted(want as int)) as nat,
            (num_samples + guard) as nat,
        ),
        guard >= run_up_wanted(want as int),
        num_samples + guard <= usize::MAX,
{
    let clamped: usize = if want < MIN_RUN_UP_SAMPLES {
        MIN_RUN_UP_SAMPLES
    } else if want > MAX_RUN_UP_SAMPLES {
        MAX_RUN_UP_SAMPLES
    } else {
        want
    };
    let total: usize = next_smooth_size(num_samples + clamped);
    total - num_samples
}

/// How to evaluate the chain feeding a converter input.
pub struct GraphPlan {
    /// The converter input.
    pub adc: usize,
    /// The main line, from the source forward.
    pub chain: Vec<OutPort>,
    /// The steps that leave the waveform at the converter input on the stack.
    pub steps: Vec<Step>,
    /// Nodes at which a feedback loop was met.
    pub cycle_nodes: Vec<usize>,
}

/// What a plan holds.
pub struct GraphPlanView {
    pub adc: usize,
    pub chain: Seq<OutPort>,
    pub steps: Seq<Step>,
    pub cycle_nodes: Seq<usize>,
}

impl View for GraphPlan {
    type V = GraphPlanView;

    open spec fn view(&self) -> GraphPlanView {
        GraphPlanView {
            adc: self.adc,
            chain: self.chain@,
            steps: self.steps@,
            cycle_nodes: self.cycle_nodes@,
        }
    }
}

/// The plan for a converter input of a graph, if anything drives it and a waveform arrives.
pub open spec fn plan_of(graph: ChainGraph, adc: usize) -> Option<GraphPlanView> {
    let (back, cycle) = trace_back(graph, first_driver(graph, adc), Seq::empty());
    let cycles = match cycle {
        None => Seq::<usize>::empty(),
        Some(node) => seq![node],
    };
    let (arrives, after) = walk_back(
        graph,
        OutPort { node: adc, port: 0 },
        Seq::empty(),
        Progress { steps: Seq::empty(), cycles },
    );
    if back.len() == 0 || !arrives {
        None
    } else {
        Some(
            GraphPlanView {
                adc,
                chain: back.reverse(),
                steps: after.steps,
                cycle_nodes: after.cycles,
            },
        )
    }
}

/// Plans the evaluation of the chain feeding a converter input.
pub fn plan_chain(graph: &ChainGraph, adc: usize) -> (plan: Option<GraphPlan>)
    requires
        graph.wf(),
        graph.has(adc),
    ensures
        plan is Some <==> plan_of(*graph, adc) is Some,
        plan is Some ==> plan->0@ == plan_of(*graph, adc)->0,
        plan is Some ==> stack_height(plan->0.steps@, 0) == Some(1nat),
{
    let (chain, cycles) = chain_order(graph, adc);
    if chain.len() == 0 {
        return None;
    }
    let mut cycle_nodes: Vec<usize> = cycles;
    let mut path: Vec<usize> = Vec::new();
    let mut steps: Vec<Step> = Vec::new();
    assert(is_path(*graph, path@));
    assert(path@ =~= Seq::empty());
    assert(steps@ =~= Seq::empty());
    let pin: OutPort = OutPort { node: adc, port: 0 };
    if !evaluate_samples(graph, pin, &mut path, &mut steps, &mut cycle_nodes) {
        return None;
    }
    proof {
        plan_leaves_one_waveform(*graph, adc);
    }
    Some(GraphPlan { adc, chain, steps, cycle_nodes })
}

/// Plans the evaluation of the RF chain feeding one ADC block: nothing if the graph has no input
/// for the block, or no waveform arrives there.
pub fn evaluate_graph(snarl: &Snarl<RfNode>, target_tile: usize, target_block: usize) -> (plan:
    Option<GraphPlan>)
    ensures
        exists|graph: ChainGraph| #[trigger]
            is_snapshot(*snarl, graph) && is_plan_for(
                *snarl,
                graph,
                target_tile,
                target_block,
                plan,
            ),
        plan is Some ==> stack_height(plan->0.steps@, 0) == Some(1nat),
{
    let graph: ChainGraph = read_graph(snarl);
    match find_adc_input(snarl, target_tile, target_block) {
        None => {
            assert(is_plan_for(*snarl, graph, target_tile, target_block, None));
            None
        },
        Some(adc) => {
            let plan: Option<GraphPlan> = plan_chain(&graph, adc);
            assert(is_plan_for(*snarl, graph, target_tile, target_block, plan));
            plan
        },
    }
}

/// The node is the input of a converter block with the lowest number.
pub open spec fn is_first_adc_input(
    snarl: Snarl<RfNode>,
    tile: usize,
    block: usize,
    adc: usize,
) -> bool {
    &&& node_table(snarl).contains_key(adc)
    &&& is_adc_input(node_table(snarl)[adc], tile, block)
    &&& forall|id: usize|
        id < adc && #[trigger] node_table(snarl).contains_key(id) ==> !is_adc_input(
            node_table(snarl)[id],
            tile,
            block,
        )
}

/// The plan is the one for the block's input in the picture of the graph; there is none if the
/// block has no input.
pub open spec fn is_plan_for(
    snarl: Snarl<RfNode>,
    graph: ChainGraph,
    tile: usize,
    block: usize,
    plan: Option<GraphPlan>,
) -> bool {
    &&& forall|adc: usize| #[trigger]
        is_first_adc_input(snarl, tile, block, adc) ==> {
            &&& plan is Some <==> plan_of(graph, adc) is Some
            &&& plan is Some ==> plan->0@ == plan_of(graph, adc)->0
        }
    &&& (forall|id: usize| #[trigger]
        node_table(snarl).contains_key(id) ==> !is_adc_input(node_table(snarl)[id], tile, block))
        ==> plan is None
}

/// Without feedback, a plan exists exactly when the first input of the converter node is wired
/// and some source feeds it, and it reports no loop.
pub proof fn loop_free_plan_is_complete(graph: ChainGraph, adc: usize)
    requires
        graph.wf(),
        graph.acyclic(),
        graph.has(adc),
    ensures
        plan_of(graph, adc) is Some <==> first_driver(graph, adc) is Some && sourced(graph, adc),
        plan_of(graph, adc) is Some ==> plan_of(graph, adc)->0.cycle_nodes.len() == 0,
{
    let cursor = first_driver(graph, adc);
    let pin = OutPort { node: adc, port: 0 };
    let none = Seq::<usize>::empty();
    if cursor is Some {
        graph.driver_exists(adc, 0);
    }
    acyclic_trace_meets_no_loop(graph, cursor, none);
    let start = Progress { steps: Seq::empty(), cycles: none };
    waveform_arrives_from_a_source(graph, pin, none, start);
    reported_nodes_are_on_loops(graph, pin, none, start);
    let after = walk_back(graph, pin, none, start).1;
    if after.cycles.len() > 0 {
        assert(graph.on_loop(after.cycles[0]));
    }
}

/// Running the steps of a plan on an empty stack never finds a waveform missing and leaves
/// exactly one: the waveform at the converter input.
pub proof fn plan_leaves_one_waveform(graph: ChainGraph, adc: usize)
    requires
        plan_of(graph, adc) is Some,
    ensures
        stack_height(plan_of(graph, adc)->0.steps, 0) == Some(1nat),
{
    let cycle = trace_back(graph, first_driver(graph, adc), Seq::empty()).1;
    let cycles = match cycle {
        None => Seq::<usize>::empty(),
        Some(node) => seq![node],
    };
    steps_fit_the_stack(
        graph,
        OutPort { node: adc, port: 0 },
        Seq::empty(),
        Progress { steps: Seq::empty(), cycles },
        0,
    );
}

/// The run-up asked for is given if it lies between 512 and 32768 samples, and the nearer of those
/// otherwise.
pub proof fn run_up_stays_in_bounds(want: int)
    ensures
        512 <= run_up_wanted(want) <= 32768,
        512 <= want <= 32768 ==> run_up_wanted(want) == want,
        want < 512 ==> run_up_wanted(want) == 512,
        want > 32768 ==> run_up_wanted(want) == 32768,
{
}

} // verus!
