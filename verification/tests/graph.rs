//! Wiring, loop detection and evaluation of the node graph.

use egui_snarl::{InPinId, NodeId, OutPinId, Snarl};
use rfsoc_sim::chain::{arriving_waveform, chain_order, record_level, run_plan, Step};
use rfsoc_sim::components::{
    AmplifierModel, AttenuatorModel, CombinerModel, DirectionalCouplerModel, FilterModel,
    FilterType, SplitterModel,
};
use rfsoc_sim::evaluation::{evaluate_graph, run_up};
use rfsoc_sim::graph::OutPort;
use rfsoc_sim::nodes::{
    AdcInputNode, AmplifierNode, AttenuatorNode, ChainEnvironment, CombinerNode,
    DirectionalCouplerNode, FilterNode, RfNode, S2pNode, SignalSourceNode, SourceType, SplitterNode,
};
use rfsoc_sim::signal::{SignalGenerator, Tone};
use rfsoc_sim::sim::GraphAnnotations;
use rfsoc_sim::theme::Theme;
use rfsoc_sim::touchstone::S2pModel;
use rfsoc_sim::wiring::{
    connect, dominant_tone_mhz, find_adc_input, node_seed, read_graph, try_connect,
    would_create_cycle, InPort,
};

fn adc(tile: usize, block: usize) -> RfNode {
    RfNode::AdcInput(AdcInputNode { tile_index: tile, block_index: block })
}

fn source() -> RfNode {
    RfNode::SignalSource(SignalSourceNode::default())
}

fn amplifier() -> RfNode {
    RfNode::Amplifier(AmplifierNode { model: AmplifierModel::default() })
}

fn attenuator() -> RfNode {
    RfNode::Attenuator(AttenuatorNode { model: AttenuatorModel::default() })
}

fn splitter() -> RfNode {
    RfNode::Splitter(SplitterNode { model: SplitterModel::default() })
}

fn combiner() -> RfNode {
    RfNode::Combiner(CombinerNode { model: CombinerModel::default() })
}

fn wire(snarl: &mut Snarl<RfNode>, from: NodeId, out: usize, to: NodeId, input: usize) {
    snarl.connect(OutPinId { node: from, output: out }, InPinId { node: to, input });
}

/// Source -> [stages] -> ADC, wired in order.
fn build_chain(stages: Vec<RfNode>) -> (Snarl<RfNode>, Vec<NodeId>) {
    let mut snarl = Snarl::<RfNode>::new();
    let mut ids = vec![snarl.insert_node(egui::pos2(0.0, 0.0), source())];
    for (i, s) in stages.into_iter().enumerate() {
        ids.push(snarl.insert_node(egui::pos2(100.0 * (i + 1) as f32, 0.0), s));
    }
    ids.push(snarl.insert_node(egui::pos2(900.0, 0.0), adc(0, 0)));
    for w in ids.windows(2) {
        wire(&mut snarl, w[0], 0, w[1], 0);
    }
    (snarl, ids)
}

#[test]
fn feedback_loop_is_detected_not_recursed() {
    // Splitter -> amp -> combiner -> back into the splitter.
    let mut snarl = Snarl::<RfNode>::new();
    let src = snarl.insert_node(egui::pos2(0.0, 0.0), source());
    let comb = snarl.insert_node(egui::pos2(100.0, 0.0), combiner());
    let split = snarl.insert_node(egui::pos2(200.0, 0.0), splitter());
    let amp = snarl.insert_node(egui::pos2(300.0, 0.0), amplifier());
    let adc_id = snarl.insert_node(egui::pos2(400.0, 0.0), adc(0, 0));

    wire(&mut snarl, src, 0, comb, 0);
    wire(&mut snarl, comb, 0, split, 0);
    wire(&mut snarl, split, 0, amp, 0);
    wire(&mut snarl, split, 1, adc_id, 0);
    // The wire that closes the loop.
    wire(&mut snarl, amp, 0, comb, 1);

    assert!(would_create_cycle(&snarl, amp.0, comb.0));

    // Must return rather than overflow the stack.
    let plan = evaluate_graph(&snarl, 0, 0).unwrap();
    assert!(!plan.cycle_nodes.is_empty(), "the loop should be reported");
    assert_eq!(plan.cycle_nodes, vec![split.0]);
    let (samples, _) = run_plan(
        &plan.steps,
        |_| (vec![1i64; 512], 0),
        |_, _, inputs: Vec<Vec<i64>>| (inputs[0].clone(), 0),
    );
    assert_eq!(samples.len(), 512);
}

#[test]
fn cycle_check_allows_legitimate_reconvergence() {
    // Splitter feeding two branches back into a combiner is a diamond, not a loop.
    let mut snarl = Snarl::<RfNode>::new();
    let src = snarl.insert_node(egui::pos2(0.0, 0.0), source());
    let split = snarl.insert_node(egui::pos2(100.0, 0.0), splitter());
    let a = snarl.insert_node(egui::pos2(200.0, -50.0), attenuator());
    let b = snarl.insert_node(egui::pos2(200.0, 50.0), attenuator());
    let comb = snarl.insert_node(egui::pos2(300.0, 0.0), combiner());
    let adc_id = snarl.insert_node(egui::pos2(400.0, 0.0), adc(0, 0));

    wire(&mut snarl, src, 0, split, 0);
    wire(&mut snarl, split, 0, a, 0);
    wire(&mut snarl, split, 1, b, 0);
    wire(&mut snarl, a, 0, comb, 0);
    assert!(!would_create_cycle(&snarl, b.0, comb.0));
    wire(&mut snarl, b, 0, comb, 1);
    wire(&mut snarl, comb, 0, adc_id, 0);

    let plan = evaluate_graph(&snarl, 0, 0).unwrap();
    assert!(plan.cycle_nodes.is_empty());
    // Both branches are walked down to the source.
    assert_eq!(
        plan.steps,
        vec![
            Step::Source { node: src.0 },
            Step::Stage { node: split.0, port: 0, inputs: 1 },
            Step::Stage { node: a.0, port: 0, inputs: 1 },
            Step::Source { node: src.0 },
            Step::Stage { node: split.0, port: 1, inputs: 1 },
            Step::Stage { node: b.0, port: 0, inputs: 1 },
            Step::Stage { node: comb.0, port: 0, inputs: 2 },
            Step::Stage { node: adc_id.0, port: 0, inputs: 1 },
        ]
    );
    // The main line follows first inputs.
    let line: Vec<usize> = plan.chain.iter().map(|p| p.node).collect();
    assert_eq!(line, vec![src.0, split.0, a.0, comb.0]);
}

#[test]
fn plan_runs_on_a_stack() {
    let (snarl, ids) = build_chain(vec![amplifier(), attenuator()]);
    let plan = evaluate_graph(&snarl, 0, 0).unwrap();
    // Each stage adds its own number to what it is handed.
    let (result, levels) = run_plan(
        &plan.steps,
        |node| (100 + node as i64, node as i64),
        |node, port, inputs: Vec<i64>| {
            assert_eq!(port, 0);
            let sum = inputs.iter().sum::<i64>() + node as i64;
            (sum, sum)
        },
    );
    let stages: i64 = ids.iter().map(|id| id.0 as i64).sum();
    assert_eq!(result, 100 + stages);
    assert_eq!(levels.len(), ids.len());
    assert_eq!(levels[0], (ids[0].0, ids[0].0 as i64));
    assert_eq!(levels[3].1, result);
}

#[test]
fn levels_replace_earlier_entries() {
    let mut levels: Vec<(usize, i32)> = Vec::new();
    record_level(&mut levels, 4, 1);
    record_level(&mut levels, 7, 2);
    record_level(&mut levels, 4, 3);
    assert_eq!(levels, vec![(4, 3), (7, 2)]);
}

#[test]
fn an_undriven_or_missing_input_has_no_plan() {
    let mut snarl = Snarl::<RfNode>::new();
    assert!(evaluate_graph(&snarl, 0, 0).is_none());
    let amp = snarl.insert_node(egui::pos2(0.0, 0.0), amplifier());
    let input = snarl.insert_node(egui::pos2(1.0, 0.0), adc(1, 1));
    assert_eq!(find_adc_input(&snarl, 1, 1), Some(input.0));
    assert_eq!(find_adc_input(&snarl, 1, 0), None);
    assert!(evaluate_graph(&snarl, 1, 1).is_none(), "nothing drives the input");
    wire(&mut snarl, amp, 0, input, 0);
    assert!(evaluate_graph(&snarl, 1, 1).is_none(), "no source drives the amplifier");
    let graph = read_graph(&snarl);
    let (chain, cycles) = chain_order(&graph, input.0);
    assert_eq!(chain, vec![OutPort { node: amp.0, port: 0 }]);
    assert!(cycles.is_empty());
}

#[test]
fn the_first_matching_input_is_taken() {
    let mut snarl = Snarl::<RfNode>::new();
    let first = snarl.insert_node(egui::pos2(0.0, 0.0), adc(0, 1));
    let second = snarl.insert_node(egui::pos2(0.0, 0.0), adc(0, 1));
    assert_eq!(find_adc_input(&snarl, 0, 1), Some(first.0));
    snarl.remove_node(first);
    assert_eq!(find_adc_input(&snarl, 0, 1), Some(second.0));
}

#[test]
fn connecting_keeps_wires_one_to_one() {
    let mut snarl = Snarl::<RfNode>::new();
    let src = snarl.insert_node(egui::pos2(0.0, 0.0), source());
    let a = snarl.insert_node(egui::pos2(0.0, 0.0), attenuator());
    let b = snarl.insert_node(egui::pos2(0.0, 0.0), attenuator());
    let out = |id: NodeId| OutPort { node: id.0, port: 0 };
    let into = |id: NodeId| InPort { node: id.0, input: 0 };
    assert!(connect(&mut snarl, out(src), into(a)));
    assert!(connect(&mut snarl, out(a), into(b)));
    assert_eq!(snarl.wires().count(), 2);
    // The source moves to b: its old wire goes, and so does the one that fed b.
    assert!(connect(&mut snarl, out(src), into(b)));
    let wires: Vec<(OutPinId, InPinId)> = snarl.wires().collect();
    assert_eq!(
        wires,
        vec![(OutPinId { node: src, output: 0 }, InPinId { node: b, input: 0 })]
    );
}

#[test]
fn connecting_refuses_a_loop_and_changes_nothing() {
    let mut snarl = Snarl::<RfNode>::new();
    let a = snarl.insert_node(egui::pos2(0.0, 0.0), attenuator());
    let b = snarl.insert_node(egui::pos2(0.0, 0.0), amplifier());
    let out = |id: NodeId| OutPort { node: id.0, port: 0 };
    let into = |id: NodeId| InPort { node: id.0, input: 0 };
    assert!(connect(&mut snarl, out(a), into(b)));
    assert!(!connect(&mut snarl, out(b), into(a)));
    assert!(!connect(&mut snarl, out(a), into(a)));
    assert_eq!(snarl.wires().count(), 1);
}

#[test]
fn nodes_have_their_pins_and_names() {
    assert_eq!((source().num_inputs(), source().num_outputs()), (0, 1));
    assert_eq!((adc(0, 0).num_inputs(), adc(0, 0).num_outputs()), (1, 0));
    assert_eq!((splitter().num_inputs(), splitter().num_outputs()), (1, 2));
    assert_eq!((combiner().num_inputs(), combiner().num_outputs()), (2, 1));
    let coupler = RfNode::DirectionalCoupler(DirectionalCouplerNode {
        model: DirectionalCouplerModel::default(),
    });
    assert_eq!((coupler.num_inputs(), coupler.num_outputs()), (1, 2));
    assert_eq!(coupler.output_label(1), "Coupled");
    assert_eq!(coupler.output_label(0), "Main");
    assert_eq!(splitter().output_label(12), "Out 12");
    assert_eq!(amplifier().output_label(0), "RF Out");
    let mut model = FilterModel::default();
    model.filter_type = FilterType::BandPass;
    assert_eq!(RfNode::Filter(FilterNode { model }).title(), "Band-Pass Filter");
    let s2p = RfNode::S2p(S2pNode { model: S2pModel::default() });
    assert_eq!(s2p.title(), "Generic S2P Block");
    assert!(s2p.has_component() && !source().has_component() && !adc(0, 0).has_component());
}

#[test]
fn node_seeds_are_odd_and_come_from_the_debug_name() {
    let mut h: u64 = 0xCBF2_9CE4_8422_2325;
    for b in format!("{:?}", NodeId(37)).bytes() {
        h ^= b as u64;
        h = h.wrapping_mul(0x100_0000_01B3);
    }
    assert_eq!(node_seed(37), h | 1);
    assert_ne!(node_seed(1), node_seed(2));
}

#[test]
fn run_up_is_bounded_and_rounds_to_a_fast_length() {
    // 4096 + 512 = 4608 = 2^9 * 9 is smooth already, and nothing in reach is cheaper.
    assert_eq!(run_up(4096, 0), 512);
    assert_eq!(run_up(4096, 1_000_000_000), run_up(4096, 32_768));
    assert!(run_up(512, 0) >= 512);
    assert!(run_up(100_000, 40_000) >= 32_768);
}

#[test]
fn strongest_tone_sets_the_reference() {
    let mut snarl = Snarl::<RfNode>::new();
    let mut global = SignalGenerator::default();
    assert_eq!(dominant_tone_mhz(&snarl, &global), 300_000_000);
    global.tones.push(Tone {
        frequency_mhz: 900_000_000,
        amplitude_dbfs: -3_000_000,
        ..Tone::default()
    });
    // Equal amplitudes keep the earlier tone.
    global.tones.push(Tone {
        frequency_mhz: 700_000_000,
        amplitude_dbfs: -3_000_000,
        ..Tone::default()
    });
    assert_eq!(dominant_tone_mhz(&snarl, &global), 900_000_000);
    // A local source takes priority, however weak.
    let mut local = SignalSourceNode::default();
    local.source_type = SourceType::LocalGenerator;
    local.generator.tones[0].amplitude_dbfs = -50_000_000;
    local.generator.tones[0].frequency_mhz = 10;
    snarl.insert_node(egui::pos2(0.0, 0.0), RfNode::SignalSource(local));
    assert_eq!(dominant_tone_mhz(&snarl, &global), 1_000_000, "never below 1 MHz");
    let mut empty = SignalSourceNode::default();
    empty.source_type = SourceType::LocalGenerator;
    empty.generator.tones.clear();
    let mut lone = Snarl::<RfNode>::new();
    lone.insert_node(egui::pos2(0.0, 0.0), RfNode::SignalSource(empty));
    assert_eq!(dominant_tone_mhz(&lone, &global), 1_000_000_000);
}

#[test]
fn annotations_colour_headers() {
    let annotations = GraphAnnotations {
        stats: vec![(3, -2i32), (5, 0)],
        cycle_nodes: vec![8],
        analysis_freq_mhz: 0,
    };
    assert_eq!(annotations.get(3), Some(&-2));
    assert_eq!(annotations.get(4), None);
    assert!(annotations.in_cycle(8) && !annotations.in_cycle(3));
    assert_eq!(Theme::header_color(&amplifier(), true, true), Theme::ACCENT_ERROR);
    assert_eq!(Theme::header_color(&amplifier(), false, true), Theme::ACCENT_WARN);
    assert_eq!(Theme::header_color(&amplifier(), false, false), Theme::NODE_ACTIVE);
    assert_eq!(Theme::header_color(&source(), false, false), Theme::NODE_SOURCE);
    assert_eq!(Theme::header_color(&adc(0, 0), false, false), Theme::NODE_SINK);
    assert_eq!(Theme::header_color(&splitter(), false, false), Theme::NODE_PASSIVE);
    assert_eq!(Theme::zone_color(3), [160, 90, 255]);
    assert_eq!(Theme::zone_color(0), Theme::ZONE_5);
    assert_eq!(ChainEnvironment::default().temperature_k, 290_000_000);
}

#[test]
fn checked_calls_refuse_what_does_not_exist() {
    let (mut snarl, ids) = build_chain(vec![amplifier()]);
    let out = OutPort { node: ids[0].0, port: 0 };
    let wires: Vec<_> = snarl.wires().collect();
    assert_eq!(try_connect(&mut snarl, out, InPort { node: 77, input: 0 }), None);
    let nowhere = OutPort { node: 77, port: 0 };
    assert_eq!(try_connect(&mut snarl, nowhere, InPort { node: ids[1].0, input: 0 }), None);
    assert_eq!(snarl.wires().count(), wires.len());
    // Straight to the converter, then a loop.
    assert_eq!(try_connect(&mut snarl, out, InPort { node: ids[2].0, input: 0 }), Some(true));
    assert_eq!(snarl.wires().count(), 1);
    let back = OutPort { node: ids[2].0, port: 0 };
    assert_eq!(try_connect(&mut snarl, back, InPort { node: ids[0].0, input: 0 }), Some(false));
    let plan = evaluate_graph(&snarl, 0, 0).unwrap();
    assert_eq!(plan.chain, vec![out]);
    // Removing a node takes its wires along.
    snarl.remove_node(ids[0]);
    assert!(evaluate_graph(&snarl, 0, 0).is_none());
}

#[test]
fn a_longer_block_begins_as_a_shorter_one() {
    // A diamond: both branches of a splitter meet again in a combiner.
    let mut snarl = Snarl::<RfNode>::new();
    let src = snarl.insert_node(egui::pos2(0.0, 0.0), source());
    let split = snarl.insert_node(egui::pos2(100.0, 0.0), splitter());
    let amp = snarl.insert_node(egui::pos2(200.0, 0.0), amplifier());
    let comb = snarl.insert_node(egui::pos2(300.0, 0.0), combiner());
    let adc_id = snarl.insert_node(egui::pos2(400.0, 0.0), adc(0, 0));
    wire(&mut snarl, src, 0, split, 0);
    wire(&mut snarl, split, 0, amp, 0);
    wire(&mut snarl, amp, 0, comb, 0);
    wire(&mut snarl, split, 1, comb, 1);
    wire(&mut snarl, comb, 0, adc_id, 0);
    let plan = evaluate_graph(&snarl, 0, 0).unwrap();
    let run = |n: i64| {
        let (samples, _) = run_plan(
            &plan.steps,
            |_| ((0..n).map(|i| i * i).collect::<Vec<i64>>(), 0),
            |id, port, inputs: Vec<Vec<i64>>| {
                let node = &snarl[NodeId(id)];
                let mut out = arriving_waveform(node, &inputs, &|a: i64, b: i64| a + b);
                // A running sum: each sample depends on those before it only.
                for i in 1..out.len() {
                    out[i] += 3 * out[i - 1] % 1009 + port as i64;
                }
                (out, 0)
            },
        );
        samples
    };
    let (short, long) = (run(64), run(200));
    assert_eq!((short.len(), long.len()), (64, 200));
    assert_eq!(short, long[..64]);
}
