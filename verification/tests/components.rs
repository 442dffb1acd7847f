//! Component parameters, interpolation tables, measured two-ports and text helpers.

use rfsoc_sim::components::{
    clamp_order, default_ps_kind, interp_table, key_of_prototype, AmplifierModel, BalunModel,
    FilterModel, FilterResponse, FilterType, MixerModel, PhaseShiftKind, PhaseShifterModel,
    PrototypeCache,
};
use rfsoc_sim::text::{chars_of, decimal, split_on, string_of, trim, words};
use rfsoc_sim::touchstone::{
    default_true, parse_touchstone_s2p, scan_touchstone, DataPoint, FreqUnit, ParamFormat, RowValue,
    S2pError, S2pModel, TouchstoneRow,
};
use rfsoc_sim::units::Ratio;

fn micro(x: f64) -> i64 {
    (x * 1e6).round() as i64
}

fn value(x: Ratio) -> f64 {
    x.over as f64 / x.under as f64 / 1e6
}

fn text(cell: &Vec<char>) -> String {
    cell.iter().collect()
}

/// Parses the cells of a row and converts them to megahertz, decibels and degrees.
fn read_row(row: &TouchstoneRow) -> RowValue {
    let (options, cells) = match row {
        TouchstoneRow::Noise { figure } => {
            return RowValue::Noise(text(figure).parse::<f64>().ok().map(micro));
        }
        TouchstoneRow::Data { options, cells } => (options, cells),
    };
    let scale = match options.unit {
        FreqUnit::Hz => 1e-6,
        FreqUnit::KHz => 1e-3,
        FreqUnit::MHz => 1.0,
        FreqUnit::GHz => 1000.0,
    };
    let freq = match text(&cells[0]).parse::<f64>() {
        Ok(f) => f * scale,
        Err(e) => return RowValue::Invalid(format!("Invalid frequency: {e}")),
    };
    let mut vals = [0.0f64; 8];
    for (i, v) in vals.iter_mut().enumerate() {
        *v = match text(&cells[i + 1]).parse::<f64>() {
            Ok(v) => v,
            Err(e) => return RowValue::Invalid(format!("Invalid S-parameter at {freq} MHz: {e}")),
        };
    }
    let to_db_deg = |a: f64, b: f64| match options.format {
        ParamFormat::Db => (a, b),
        ParamFormat::Ma => (20.0 * a.abs().max(1e-12).log10(), b),
        ParamFormat::Ri => {
            (20.0 * a.hypot(b).max(1e-12).log10(), b.atan2(a).to_degrees())
        }
    };
    let (s11, _) = to_db_deg(vals[0], vals[1]);
    let (s21, deg) = to_db_deg(vals[2], vals[3]);
    let (s22, _) = to_db_deg(vals[6], vals[7]);
    RowValue::Data(DataPoint {
        freq_mhz: micro(freq),
        s11_db: micro(s11),
        s21_db: micro(s21),
        s21_deg: micro(deg),
        s22_db: micro(s22),
    })
}

#[test]
fn touchstone_s2p_parsing() {
    let sample_s2p = "! Sample Touchstone File\n# MHz S DB R 50\n100.0 -15.0 0.0 -0.5 0.0 -15.0 0.0 -15.0 0.0\n1000.0 -20.0 0.0 -2.5 0.0 -20.0 0.0 -20.0 0.0\n";
    let model = parse_touchstone_s2p("Test Filter", sample_s2p, read_row).unwrap();
    assert_eq!(model.name, "Test Filter");
    assert_eq!(model.s21_table.len(), 2);
    assert!((value(model.s21_gain_at(micro(100.0))) - (-0.5)).abs() < 1e-5);
    assert!((value(model.s21_gain_at(micro(1000.0))) - (-2.5)).abs() < 1e-5);
    assert!((value(model.s21_gain_at(micro(550.0))) - (-1.5)).abs() < 1e-5);
    // S11 is kept, so return loss and VSWR are available.
    let return_loss = value(model.return_loss_db(micro(100.0)).unwrap());
    assert!((return_loss - (-15.0)).abs() < 1e-5);
    let gamma = 10.0_f64.powf(return_loss / 20.0).min(0.999_999);
    let vswr = (1.0 + gamma) / (1.0 - gamma);
    assert!((vswr - 1.433).abs() < 0.01, "VSWR {vswr}");
    // A passive block cannot have a noise figure better than its loss.
    assert!(value(model.noise_figure_db_at(micro(1000.0))) >= 2.5 - 1e-9);
}

#[test]
fn touchstone_ri_and_ma_formats() {
    // Magnitude-angle: S21 magnitude 0.5 = -6.02 dB at -45 degrees.
    let ma = "# GHz S MA R 50\n1.0 0.1 0 0.5 -45 0.5 -45 0.1 0\n2.0 0.1 0 0.5 -90 0.5 -90 0.1 0\n";
    let m = parse_touchstone_s2p("ma", ma, read_row).unwrap();
    assert!((value(m.s21_gain_at(micro(1000.0))) - (-6.02)).abs() < 0.01);
    assert!((value(m.s21_phase_at(micro(1000.0))) - (-45.0)).abs() < 0.01);
    // Frequencies were in GHz.
    assert!((m.s21_table[1].0 as f64 / 1e6 - 2000.0).abs() < 1e-6);

    // Real-imaginary: 0.5 + 0j is also -6.02 dB, at 0 degrees.
    let ri = "# MHz S RI R 50\n100 0 0 0.5 0 0.5 0 0 0\n";
    let r = parse_touchstone_s2p("ri", ri, read_row).unwrap();
    assert!((value(r.s21_gain_at(micro(100.0))) - (-6.02)).abs() < 0.01);
    assert!(value(r.s21_phase_at(micro(100.0))).abs() < 0.01);
}

#[test]
fn touchstone_phase_unwraps_across_points() {
    // Phase running past -180 wraps in the file; interpolation must not see a jump.
    let s2p = "# MHz S DB R 50\n1000 -20 0 -1 -170 -1 -170 -20 0\n2000 -20 0 -1 170 -1 170 -20 0\n";
    let m = parse_touchstone_s2p("wrap", s2p, read_row).unwrap();
    // Halfway between -170 and -190 is -180, not 0.
    let mid = value(m.s21_phase_at(micro(1500.0)));
    assert!((mid + 180.0).abs() < 1.0, "unwrapped midpoint {mid}");
}

#[test]
fn touchstone_options_noise_and_order() {
    let file = "1 2 3 4 5\n# khz s ri\n! comment\n2000 0 0 1 0 1 0 0 0 extra ! tail\n  # DB hz \n1000000 -9 0 -4 0 0 0 -8 0\n100 3.5 0.1 2 50\n200 2.5 0.1 2 50\n300 x 1 2 3\n1 2\n";
    let rows = scan_touchstone(file);
    assert_eq!(rows.len(), 5);
    match &rows[0] {
        TouchstoneRow::Data { options, cells } => {
            assert_eq!((options.unit, options.format), (FreqUnit::KHz, ParamFormat::Ri));
            assert_eq!(cells.len(), 9);
            assert_eq!(text(&cells[0]), "2000");
        }
        TouchstoneRow::Noise { .. } => panic!("five columns before any data are ignored"),
    }
    let model = parse_touchstone_s2p("order", file, read_row).unwrap();
    // Rows come out in order of frequency: 1 MHz, then 2 MHz.
    assert_eq!(model.s21_table[0], (micro(1.0), micro(-4.0), 0));
    assert_eq!(model.s21_table[1].0, micro(2.0));
    assert_eq!(model.s11_table[0], (micro(1.0), micro(-9.0)));
    assert_eq!(model.s22_table[0], (micro(1.0), micro(-8.0)));
    assert_eq!(model.noise_figure_db, micro(2.5));
    assert_eq!(model.oip3_dbm, micro(30.0));
    assert!(model.use_measured_phase);
}

#[test]
fn touchstone_faults_are_reported() {
    let none = parse_touchstone_s2p("x", "# MHz\n! nothing\n1 2 3\n", read_row).unwrap_err();
    assert!(matches!(none, S2pError::NoData));
    assert_eq!(none.message(), "No valid S2P data points found");
    let bad = parse_touchstone_s2p("x", "1 2 3 4 oops 6 7 8 9\nq 2 3 4 5 6 7 8 9\n", read_row);
    assert_eq!(
        bad.unwrap_err().message(),
        "Invalid S-parameter at 1 MHz: invalid float literal"
    );
    let freq = parse_touchstone_s2p("x", "q 2 3 4 5 6 7 8 9\n", read_row).unwrap_err();
    assert_eq!(freq.message(), "Invalid frequency: invalid float literal");
    // Without noise data the greatest loss stands in, never below zero.
    let lossy = "# MHz S DB\n1 0 0 -3 0 0 0 0 0\n2 0 0 -5 0 0 0 0 0\n";
    assert_eq!(parse_touchstone_s2p("x", lossy, read_row).unwrap().noise_figure_db, micro(5.0));
    let gain = "# MHz S DB\n1 0 0 12 0 0 0 0 0\n";
    assert_eq!(parse_touchstone_s2p("x", gain, read_row).unwrap().noise_figure_db, 0);
}

#[test]
fn balun_interpolation_matches_datasheet() {
    let balun = BalunModel {
        amplitude_imbalance_db: 0,
        phase_imbalance_deg: 0,
        ..BalunModel::default()
    };
    // In-band the datasheet table is what the response follows.
    assert!((value(balun.table_loss_at(micro(100.0))) - 0.78).abs() < 0.01);
    assert!((value(balun.table_loss_at(micro(1000.0))) - 1.30).abs() < 0.01);
    let il_550 = value(balun.table_loss_at(micro(550.0)));
    assert!(il_550 > 0.95 && il_550 < 1.12);
}

#[test]
fn tables_are_held_beyond_their_ends() {
    let table = vec![(10, 100), (20, 300), (40, 0)];
    let ratio = |over: i128, under: i128| Ratio { over, under };
    assert_eq!(interp_table(&vec![], 5), ratio(0, 1));
    assert_eq!(interp_table(&vec![(7, 42)], 5), ratio(42, 1));
    assert_eq!(interp_table(&table, 1), ratio(100, 1));
    assert_eq!(interp_table(&table, 10), ratio(100, 1));
    assert_eq!(interp_table(&table, 15), ratio(2000, 10));
    assert_eq!(interp_table(&table, 20), ratio(3000, 10));
    assert_eq!(interp_table(&table, 33), ratio(2100, 20));
    assert_eq!(interp_table(&table, 99), ratio(0, 1));
    // A step without width is skipped.
    assert_eq!(interp_table(&vec![(10, 1), (10, 5), (20, 15)], 14), ratio(90, 10));
    // Nothing is rounded.
    assert_eq!(interp_table(&vec![(0, 0), (3, 1)], 1), ratio(1, 3));
}

#[test]
fn default_s2p_block_settles_within_its_resolution() {
    let model = S2pModel::default();
    // The finest spacing is 490 MHz.
    let finest = Ratio { over: 1_000_000_000_000_000, under: micro(490.0) as i128 };
    assert_eq!(model.settling_ns(), finest);
    assert_eq!(value(model.s21_gain_at(micro(500.0))), -0.8);
    assert_eq!(value(model.s21_phase_at(micro(3000.0))), -77.5);
    assert_eq!(value(model.noise_figure_db_at(micro(6000.0))), 6.0);
    assert_eq!(value(model.noise_figure_db_at(micro(10.0))), 1.5);
    assert!(default_true());
    let mut bare = S2pModel::default();
    bare.s11_table.clear();
    bare.s21_table.truncate(1);
    assert_eq!(bare.return_loss_db(0), None);
    assert_eq!(bare.settling_ns(), Ratio { over: 0, under: 1 });
}

#[test]
fn component_figures_follow_their_parameters() {
    let amp = AmplifierModel::default();
    assert_eq!(amp.input_p1db_dbm(), micro(9.0));
    assert!(!amp.is_flat());
    assert!(AmplifierModel { bandwidth_mhz: 0, ..amp }.is_flat());
    let mixer = MixerModel::default();
    assert_eq!(mixer.product_freqs(micro(30.0)), (micro(70.0), micro(130.0)));
    assert_eq!(mixer.product_freqs(micro(130.0)), (micro(30.0), micro(230.0)));
    let mut shifter = PhaseShifterModel::default();
    assert_eq!(shifter.kind, default_ps_kind());
    // A quarter turn at 1 GHz is 0.25 ns.
    assert_eq!(value(shifter.delay_ns()), 0.25);
    assert_eq!(value(shifter.settling_ns()), 0.0);
    shifter.kind = PhaseShiftKind::TrueDelay;
    shifter.phase_shift_deg = micro(-90.0);
    assert_eq!(value(shifter.settling_ns()), 0.25);
    shifter.ref_freq_mhz = 0;
    assert_eq!(value(shifter.delay_ns()), 0.0);
    assert_eq!(PhaseShiftKind::TrueDelay.label(), "True Time Delay");
    assert_eq!(FilterType::HighPass.label(), "High-Pass");
    let mut filter = FilterModel::default();
    assert_eq!(filter.twice_ringing_corner_mhz(), micro(2000.0));
    filter.filter_type = FilterType::BandPass;
    assert_eq!(filter.twice_ringing_corner_mhz(), micro(200.0));
}

#[test]
fn prototypes_are_remembered_up_to_the_limit() {
    let mut cache: PrototypeCache<u32> = PrototypeCache::new();
    let key = key_of_prototype(FilterResponse::Chebyshev { ripple_db: 500_000 }, 40);
    assert_eq!(key, (500_000, 16));
    assert_eq!(key_of_prototype(FilterResponse::Butterworth, 0), (0, 1));
    assert_eq!(clamp_order(7), 7);
    assert_eq!(cache.find(key), None);
    cache.remember(key, 9);
    assert_eq!(cache.find(key), Some(&9));
    for order in 1..16 {
        cache.remember((0, order), order);
    }
    assert_eq!(cache.find(key), Some(&9));
    // The seventeenth empties the cache first.
    cache.remember((1, 1), 1);
    assert_eq!(cache.find(key), None);
    assert_eq!(cache.find((1, 1)), Some(&1));
}

#[test]
fn text_splits_like_lines_and_words() {
    let strings = |parts: Vec<Vec<char>>| -> Vec<String> { parts.iter().map(string_of).collect() };
    assert_eq!(strings(split_on(&chars_of("a,,b,"), ',')), vec!["a", "", "b", ""]);
    assert_eq!(strings(split_on(&chars_of(""), ',')), vec![""]);
    assert_eq!(strings(words(&chars_of("  one\ttwo \u{2003} three "))), vec!["one", "two", "three"]);
    assert!(words(&chars_of(" \n ")).is_empty());
    assert_eq!(string_of(&trim(&chars_of("\t x y \r"))), "x y");
    assert_eq!(string_of(&trim(&chars_of("   "))), "");
    assert_eq!(decimal(0), "0");
    assert_eq!(decimal(18_446_744_073_709_551_615), "18446744073709551615");
}

#[test]
fn words_are_parted_by_any_white_space() {
    let white = |code: u32| {
        (9..=13).contains(&code)
            || (0x2000..=0x200a).contains(&code)
            || [0x20, 0x85, 0xa0, 0x1680, 0x2028, 0x2029, 0x202f, 0x205f, 0x3000].contains(&code)
    };
    for c in (0..=0x10ffff).filter_map(char::from_u32) {
        assert_eq!(words(&vec![c]).is_empty(), white(c as u32), "{c:?}");
    }
}

#[test]
fn true_delay_scales_phase_with_frequency() {
    let ps = PhaseShifterModel {
        phase_shift_deg: micro(90.0),
        insertion_loss_db: 0,
        kind: PhaseShiftKind::TrueDelay,
        ref_freq_mhz: micro(1000.0),
    };
    let at_ref = value(ps.phase_deg_at(micro(1000.0)));
    let at_double = value(ps.phase_deg_at(micro(2000.0)));
    assert!((at_ref + 90.0).abs() < 1e-6);
    assert!((at_double + 180.0).abs() < 1e-6);
    assert!((value(ps.delay_ns()) - 0.25).abs() < 1e-9);
}

#[test]
fn constant_phase_is_the_same_at_every_frequency() {
    let ps = PhaseShifterModel {
        phase_shift_deg: micro(30.0),
        kind: PhaseShiftKind::ConstantPhase,
        ..PhaseShifterModel::default()
    };
    assert_eq!(value(ps.phase_deg_at(micro(10.0))), -30.0);
    assert_eq!(value(ps.phase_deg_at(micro(9000.0))), -30.0);
    let loose = PhaseShifterModel { kind: PhaseShiftKind::TrueDelay, ref_freq_mhz: 0, ..ps };
    assert_eq!(value(loose.phase_deg_at(micro(10.0))), 0.0);
    let line = PhaseShifterModel { ref_freq_mhz: micro(7.0), ..loose };
    let exact = Ratio { over: -30_000_000_000_000, under: 7_000_000 };
    assert_eq!(line.phase_deg_at(micro(1.0)), exact);
}
