//! The RF budget of a chain, and what arrives at its nodes.

use egui_snarl::{InPinId, NodeId, OutPinId, Snarl};
use rfsoc_sim::budget::{BudgetRow, BudgetRules, Cascade};
use rfsoc_sim::chain::arriving_waveform;
use rfsoc_sim::components::{AmplifierModel, AttenuatorModel, CombinerModel};
use rfsoc_sim::evaluation::evaluate_graph;
use rfsoc_sim::graph::OutPort;
use rfsoc_sim::nodes::{
    AdcInputNode, AmplifierNode, AttenuatorNode, CombinerNode, RfNode, S2pNode, SignalSourceNode,
};
use rfsoc_sim::touchstone::S2pModel;
use rfsoc_sim::units::Ratio;

fn micro(x: f64) -> i64 {
    (x * 1e6).round() as i64
}

fn f(x: i64) -> f64 {
    x as f64 / 1e6
}

fn exact(x: Ratio) -> f64 {
    x.over as f64 / x.under as f64 / 1e6
}

/// Source -> [stages] -> ADC, wired in order.
fn build_chain(stages: Vec<RfNode>) -> Snarl<RfNode> {
    let mut snarl = Snarl::<RfNode>::new();
    let source = RfNode::SignalSource(SignalSourceNode::default());
    let mut ids = vec![snarl.insert_node(egui::pos2(0.0, 0.0), source)];
    for s in stages {
        ids.push(snarl.insert_node(egui::pos2(100.0, 0.0), s));
    }
    let adc = RfNode::AdcInput(AdcInputNode { tile_index: 0, block_index: 0 });
    ids.push(snarl.insert_node(egui::pos2(900.0, 0.0), adc));
    for w in ids.windows(2) {
        let from = OutPinId { node: w[0], output: 0 };
        snarl.connect(from, InPinId { node: w[1], input: 0 });
    }
    snarl
}

fn amp(gain: f64, nf: f64, oip3: f64) -> RfNode {
    RfNode::Amplifier(AmplifierNode {
        model: AmplifierModel {
            gain_db: micro(gain),
            noise_figure_db: micro(nf),
            p1db_dbm: micro(30.0),
            oip3_dbm: micro(oip3),
            bandwidth_mhz: 0,
        },
    })
}

fn pad(db: f64) -> RfNode {
    RfNode::Attenuator(AttenuatorNode { model: AttenuatorModel { attenuation_db: micro(db) } })
}

/// Gain, noise figure and output intercept of a stage, in dB and dBm.
type Figures = (f64, f64, Option<f64>);

/// Cascaded gain, noise figure and output intercept, and the rows they come from.
struct Totals {
    cascaded_gain_db: f64,
    cascaded_nf_db: f64,
    cascaded_oip3_dbm: f64,
    compressing: bool,
    rows: Vec<BudgetRow<f64, Figures, f64>>,
}

fn budget(snarl: &Snarl<RfNode>, levels: &Vec<(usize, f64)>) -> Totals {
    let linear = |db: f64| 10.0_f64.powf(db / 10.0);
    let rules = BudgetRules {
        measure: |pin: OutPort, _: f64| match &snarl[NodeId(pin.node)] {
            RfNode::Amplifier(n) => {
                let m = n.model;
                Some((f(m.gain_db), f(m.noise_figure_db), Some(f(m.oip3_dbm))))
            }
            RfNode::Attenuator(n) => {
                let loss = f(n.model.attenuation_db);
                Some((-loss, loss, None))
            }
            RfNode::S2p(n) => {
                let at = micro(1000.0);
                let nf = exact(n.model.noise_figure_db_at(at));
                Some((exact(n.model.s21_gain_at(at)), nf, Some(f(n.model.oip3_dbm))))
            }
            _ => None,
        },
        add_noise: |factor: f64, (_, nf, _): Figures, gain: f64| factor + (linear(nf) - 1.0) / gain,
        add_intercept: |sum: f64, (g, _, oip3): Figures, gain: f64| match oip3 {
            Some(oip3) => sum + gain / linear(oip3 - g),
            None => sum,
        },
        amplify: |gain: f64, (g, _, _): Figures| gain * linear(g),
        compresses: |(g, _, _): Figures| g > 40.0,
    };
    let plan = evaluate_graph(snarl, 0, 0).unwrap();
    let start = Cascade { gain: 1.0, noise_factor: 1.0, inverse_intercept: 0.0 };
    let (rows, total, compressing) = rules.add_up(&plan.chain, levels, -300.0, start);
    let cascaded_gain_db = 10.0 * total.gain.log10();
    Totals {
        cascaded_gain_db,
        cascaded_nf_db: 10.0 * total.noise_factor.log10(),
        cascaded_oip3_dbm: 10.0 * (1.0 / total.inverse_intercept).log10() + cascaded_gain_db,
        compressing,
        rows,
    }
}

#[test]
fn friis_cascaded_noise_figure() {
    let snarl = build_chain(vec![amp(20.0, 2.0, 45.0), amp(10.0, 8.0, 45.0)]);
    let res = budget(&snarl, &vec![]);

    assert!((res.cascaded_gain_db - 30.0).abs() < 1e-3);
    // F_total = F1 + (F2-1)/G1 = 1.5849 + 5.3095/100 = 1.638 -> 2.143 dB
    assert!((res.cascaded_nf_db - 2.143).abs() < 0.05);
}

#[test]
fn cascaded_oip3_cannot_beat_its_stages() {
    let stage = |g: f64, oip3: f64| {
        RfNode::S2p(S2pNode {
            model: S2pModel {
                name: "stage".into(),
                s21_table: vec![(micro(1.0), micro(g), 0), (micro(10000.0), micro(g), 0)],
                s11_table: vec![],
                s22_table: vec![],
                noise_figure_db: 0,
                oip3_dbm: micro(oip3),
                use_measured_phase: false,
            },
        })
    };
    let snarl = build_chain(vec![stage(10.0, 30.0), stage(10.0, 30.0)]);
    let res = budget(&snarl, &vec![]);

    assert!((res.cascaded_gain_db - 20.0).abs() < 0.01);
    // Textbook: IIP3 per stage = 20 dBm, 1/IIP3 = 1/100 + 10/100 -> 9.59 dBm,
    // so OIP3 = 9.59 + 20 = 29.6 dBm. Never better than a single stage.
    assert!(
        (res.cascaded_oip3_dbm - 29.6).abs() < 0.3,
        "cascaded OIP3 {} dBm, expected 29.6",
        res.cascaded_oip3_dbm
    );
}

#[test]
fn passive_pad_does_not_dominate_linearity() {
    // A resistive pad is essentially perfectly linear; putting one in front of an
    // amplifier must improve the cascade's linearity, never destroy it.
    let alone = budget(&build_chain(vec![amp(20.0, 1.5, 30.0)]), &vec![]);
    let padded = budget(&build_chain(vec![pad(6.0), amp(20.0, 1.5, 30.0)]), &vec![]);

    assert!((alone.cascaded_oip3_dbm - 30.0).abs() < 0.01);
    // The pad shifts the whole chain's gain down 6 dB but the amp still saturates at the
    // same output power, so OIP3 is unchanged.
    assert!(
        (padded.cascaded_oip3_dbm - 30.0).abs() < 0.01,
        "a 6 dB pad should not change OIP3, got {}",
        padded.cascaded_oip3_dbm
    );
    // Noise figure does get worse by the full 6 dB, which is the real cost.
    assert!((padded.cascaded_nf_db - (alone.cascaded_nf_db + 6.0)).abs() < 0.1);
}

#[test]
fn the_first_amplifier_decides_the_noise_figure() {
    let first = budget(&build_chain(vec![amp(20.0, 2.0, 45.0), pad(20.0)]), &vec![]);
    let last = budget(&build_chain(vec![pad(20.0), amp(20.0, 2.0, 45.0)]), &vec![]);
    assert!((first.cascaded_nf_db - 4.11).abs() < 0.3, "LNA-first NF {}", first.cascaded_nf_db);
    assert!((last.cascaded_nf_db - 22.0).abs() < 0.3, "LNA-last NF {}", last.cascaded_nf_db);
    assert!((first.cascaded_gain_db - last.cascaded_gain_db).abs() < 1e-9);
}

#[test]
fn rows_follow_the_chain() {
    let snarl = build_chain(vec![amp(20.0, 2.0, 45.0), pad(6.0)]);
    let res = budget(&snarl, &vec![(1, -20.0), (0, -40.0), (1, -7.0)]);
    assert_eq!(res.rows.iter().map(|r| r.node).collect::<Vec<_>>(), vec![0, 1, 2]);
    // The first level noted for a node counts, and a node without one is silent.
    assert_eq!(res.rows.iter().map(|r| r.level).collect::<Vec<_>>(), vec![-40.0, -20.0, -300.0]);
    // The source only passes its signal on.
    assert!(res.rows[0].figures.is_none() && res.rows[0].gain == 1.0);
    assert!((res.rows[1].gain - 100.0).abs() < 1e-9);
    assert!(!res.compressing);
    let hard = budget(&build_chain(vec![amp(50.0, 2.0, 45.0), pad(6.0)]), &vec![]);
    assert!(hard.compressing, "one stage is enough");
}

#[test]
fn each_stage_is_driven_by_the_one_before() {
    let rules = BudgetRules {
        measure: |pin: OutPort, drive: i64| if pin.node == 7 { None } else { Some(drive) },
        add_noise: |sum: i64, drive: i64, gain: i64| sum + 100 * drive + gain,
        add_intercept: |sum: i64, drive: i64, gain: i64| sum + drive * gain,
        amplify: |gain: i64, _: i64| 2 * gain,
        compresses: |drive: i64| drive == 4,
    };
    let chain: Vec<OutPort> = [5, 7, 6].map(|node| OutPort { node, port: 0 }).to_vec();
    let levels = vec![(5, 3), (7, 4), (6, 9)];
    let start = Cascade { gain: 1, noise_factor: 0, inverse_intercept: 0 };
    let (rows, total, compressing) = rules.add_up(&chain, &levels, -1, start);
    // Node 5 is driven by silence at gain 1, node 6 by what leaves node 7 at gain 2.
    assert_eq!(rows.iter().map(|r| r.figures).collect::<Vec<_>>(), vec![Some(-1), None, Some(4)]);
    assert_eq!(rows.iter().map(|r| r.gain).collect::<Vec<_>>(), vec![2, 2, 4]);
    assert_eq!((total.gain, total.noise_factor, total.inverse_intercept), (4, 303, 7));
    assert!(compressing);
    let (none, same, _) = rules.add_up(&vec![], &levels, -1, start);
    assert!(none.is_empty() && same.gain == 1);
}

#[test]
fn a_combiner_sums_and_other_nodes_take_their_first_input() {
    let combiner = RfNode::Combiner(CombinerNode { model: CombinerModel::default() });
    let plus = |a: i64, b: i64| a + b;
    let inputs = vec![vec![1, 2, 3], vec![10, 20], vec![100, 200, 300, 400]];
    assert_eq!(arriving_waveform(&combiner, &inputs, &plus), vec![111, 222, 303]);
    assert_eq!(arriving_waveform(&pad(6.0), &inputs, &plus), vec![1, 2, 3]);
    assert_eq!(arriving_waveform(&combiner, &vec![vec![4]], &plus), vec![4]);
    // A shorter block begins as a longer one does.
    let shorter: Vec<Vec<i64>> = inputs.iter().map(|v| v[..2].to_vec()).collect();
    assert_eq!(arriving_waveform(&combiner, &shorter, &plus), vec![111, 222]);
}
