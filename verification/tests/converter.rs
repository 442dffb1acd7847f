//! Converter configuration, frequency plan and capture planning.

use rfsoc_sim::adc::{apply_digital_non_idealities, clamp_code, impairments, spur_signs};
use rfsoc_sim::capture::{
    mixer_shift, plan_capture, resample_point, resampled_len, sample_adc_at_tile_rate,
    CapturePlan, DataPath, DdcSettings, FineMixerScale, MixerGain, Pane, ResamplePoint,
    RESAMPLER_PHASES, RESAMPLER_RADIUS, RESAMPLER_TAPS,
};
use rfsoc_sim::presets::{default_zcu208, narrowband_ddc, single_tile, wideband_capture};
use rfsoc_sim::rfdc::{
    resolve_nco_freq, AdcBlock, AdcNonIdealities, AdcTile, CalibrationMode, CoarseMixFreq,
    DecimationFactor, MixerMode, NyquistZone, RfdcConfig,
};
use rfsoc_sim::spectrum::{FftWindow, SpectrumAnalysis, SpectrumDetail};
use rfsoc_sim::units::Ratio;
use std::f64::consts::PI;

fn mhz(x: f64) -> i64 {
    (x * 1e6).round() as i64
}

fn value(x: i64) -> f64 {
    x as f64 / 1e6
}

#[test]
fn default_config_has_all_tiles_enabled() {
    let config = RfdcConfig::default();
    assert_eq!(config.adc_tiles.len(), 4);
    for tile in &config.adc_tiles {
        assert!(tile.enabled);
        for block in &tile.blocks {
            assert!(block.enabled);
        }
    }
}

#[test]
fn active_blocks_respects_enable_flags() {
    let mut config = RfdcConfig::default();
    config.adc_tiles[1].enabled = false;
    config.adc_tiles[2].blocks[1].enabled = false;
    let active: Vec<_> = config.active_adc_blocks();
    assert_eq!(active.len(), 5);
    let places: Vec<(usize, usize)> = active.iter().map(|a| (a.0, a.1)).collect();
    assert_eq!(places, vec![(0, 0), (0, 1), (2, 0), (3, 0), (3, 1)]);
    assert!(config.active_block(1, 0).is_none());
    assert!(config.active_block(2, 1).is_none());
    assert!(config.active_block(2, 0).is_some());
}

#[test]
fn nyquist_bandwidth_calculation() {
    let tile = AdcTile::new(0);
    assert!((value(tile.nyquist_bw_mhz()) - 2000.0).abs() < 1e-6);
    assert_eq!(tile.sample_rate_hz(), 4_000_000_000);
    assert_eq!(tile.sample_rate_mhz(), mhz(4000.0));
}

#[test]
fn auto_tune_nyquist_zones() {
    let tile = AdcTile::new(0); // 4.0 GSPS -> F_nyq = 2000 MHz
    // 5800 MHz target -> 5800 / 2000 = 2.9 -> Zone 3 (Odd)
    let res = tile.auto_tune(mhz(5800.0));
    assert_eq!(res.zone_index, 3);
    assert!(!res.is_even_zone);
    assert_eq!(res.nyquist_zone, NyquistZone::Zone3);
    assert!((value(res.alias_freq_mhz) - 1800.0).abs() < 1e-6);

    // 3000 MHz target -> 3000 / 2000 = 1.5 -> Zone 2 (Even)
    let res2 = tile.auto_tune(mhz(3000.0));
    assert_eq!(res2.zone_index, 2);
    assert!(res2.is_even_zone);
    assert_eq!(res2.nyquist_zone, NyquistZone::Zone2);
    assert!((value(res2.alias_freq_mhz) - 1000.0).abs() < 1e-6);
}

#[test]
fn nco_sign_follows_configured_zone() {
    let fs = 4000.0;
    let odd = false;
    let even = true;
    for (requested, is_even_zone, expected, note) in [
        (2400.0_f64, odd, -1600.0_f64, "zone 2 (even) requested on an odd-zone block"),
        (2400.0, even, 1600.0, "zone 2 (even) requested on an even-zone block"),
        (5300.0, even, -1300.0, "zone 3 (odd) requested on an even-zone block"),
        (5300.0, odd, 1300.0, "zone 3 (odd) requested on an odd-zone block"),
    ] {
        let got = value(resolve_nco_freq(mhz(requested), mhz(fs), is_even_zone));
        assert!((got - expected).abs() < 1e-9, "{note}: got {got}, expected {expected}");
        // Magnitude is always the alias frequency, only the sign is conventional.
        let zone = (requested / (fs / 2.0)).floor() as u32 + 1;
        let alias = if zone % 2 == 0 {
            zone as f64 * fs / 2.0 - requested
        } else {
            requested - (zone as f64 - 1.0) * fs / 2.0
        };
        assert!((got.abs() - alias).abs() < 1e-9, "{note}: |NCO| != alias {alias}");
    }

    for &is_even in &[odd, even] {
        assert!((value(resolve_nco_freq(mhz(1400.0), mhz(fs), is_even)) - 1400.0).abs() < 1e-9);
        assert!((value(resolve_nco_freq(mhz(-1600.0), mhz(fs), is_even)) - (-1600.0)).abs() < 1e-9);
    }
}

#[test]
fn tuning_without_rate_or_target_passes_the_target_through() {
    let mut tile = AdcTile::new(0);
    let res = tile.auto_tune(mhz(-10.0));
    assert_eq!((res.zone_index, res.is_even_zone), (1, false));
    assert_eq!((res.alias_freq_mhz, res.nco_freq_mhz), (mhz(-10.0), mhz(-10.0)));
    tile.sample_rate_gsps = 0;
    assert_eq!(tile.auto_tune(mhz(100.0)).nco_freq_mhz, mhz(100.0));
}

#[test]
fn tuned_nco_is_signed_for_its_zone_and_resolves_to_itself() {
    let tile = AdcTile::new(0);
    let even = tile.auto_tune(mhz(2400.0));
    assert_eq!(even.zone_index, 2);
    assert_eq!(even.nco_freq_mhz, mhz(-1600.0));
    assert_eq!(resolve_nco_freq(even.nco_freq_mhz, mhz(4000.0), true), mhz(-1600.0));
    // The far zones all share the last number.
    let far = tile.auto_tune(mhz(19_500.0));
    assert_eq!(far.zone_index, 10);
    assert_eq!(far.nyquist_zone, NyquistZone::Zone8);
    assert_eq!(far.alias_freq_mhz, mhz(500.0));
}

#[test]
fn resolving_an_nco_twice_changes_nothing_more() {
    for fs in [1, 2, 3, 7, 4_000_000_000_i64] {
        for requested in [-9_000_000_001_i64, -11, -2, 0, 3, 8, 5_300_000_000] {
            for even in [false, true] {
                let once = resolve_nco_freq(requested, fs, even);
                assert_eq!(resolve_nco_freq(once, fs, even), once);
                assert!(2 * once.abs() <= fs.max(2 * requested.abs().min(fs)));
                let apart = if even { requested + once } else { requested - once };
                assert!(apart % fs == 0 || (requested - once) % fs == 0);
            }
        }
    }
}

#[test]
fn zones_are_numbered_and_named() {
    for (i, zone) in NyquistZone::ALL.iter().enumerate() {
        assert_eq!(zone.index() as usize, i + 1);
        assert_eq!(NyquistZone::from_index(zone.index()), *zone);
    }
    assert_eq!(NyquistZone::from_index(0), NyquistZone::Zone8);
    assert_eq!(NyquistZone::from_index(99), NyquistZone::Zone8);
    assert_eq!(NyquistZone::SECOND.label(), "Zone 2 (Even, Mirrored)");
    assert_eq!(NyquistZone::FIRST.label(), "Zone 1 (Odd, Direct)");
    assert!(NyquistZone::Zone4.is_even());
}

#[test]
fn settings_have_their_names() {
    assert_eq!(MixerMode::Bypass.label(), "Bypass");
    assert_eq!(MixerMode::CoarseMix(CoarseMixFreq::MinusFsOver4).label(), "Coarse (−Fs/4)");
    assert_eq!(MixerMode::FineMix.label(), "Fine (NCO)");
    assert_eq!(MixerMode::all_basic()[1], MixerMode::CoarseMix(CoarseMixFreq::FsOver4));
    assert_eq!(DecimationFactor::X12.label(), "×12");
    assert_eq!(CalibrationMode::Mode2.label(), "Mode 2");
    let factors: Vec<u32> = DecimationFactor::ALL.iter().map(|f| f.factor()).collect();
    assert_eq!(factors, vec![1, 2, 3, 4, 5, 6, 8, 10, 12, 16, 20, 24, 40]);
}

#[test]
fn pll_needs_a_whole_multiplier() {
    let mut tile = AdcTile::new(0);
    assert_eq!(tile.validate_pll(), None, "4000 MHz is no multiple of 245.76 MHz");
    tile.sample_rate_gsps = 3_932_160; // 16 x 245.76 MHz
    assert_eq!(tile.validate_pll(), Some(16));
    tile.ref_clk_mhz = mhz(250.0);
    assert_eq!(tile.validate_pll(), None);
    for (rate, clock) in [(0, 0), (0, 1), (4_000_000, 0), (-4_000_000, -4_000_000_000)] {
        let odd = AdcTile { sample_rate_gsps: rate, ref_clk_mhz: clock, ..AdcTile::new(0) };
        assert_eq!(odd.validate_pll(), None, "{rate} from {clock}");
    }
    tile.pll_enabled = false;
    assert_eq!(tile.validate_pll(), Some(1));
}

#[test]
fn fabric_clock_must_not_exceed_its_limit() {
    let mut block = AdcBlock::new(0);
    // 4000 MHz over 8 words is exactly 500 MHz; over 4 it is 1000 MHz.
    assert!(block.axi_clock_is_valid(4_000_000, 8));
    assert!(!block.axi_clock_is_valid(4_000_000, 4));
    assert!(!block.axi_clock_is_valid(4_000_001, 8));
    block.decimation = DecimationFactor::X2;
    assert!(block.axi_clock_is_valid(4_000_000, 4));
}

#[test]
fn output_rate_is_the_decimated_rate() {
    let mut block = AdcBlock::new(1);
    assert_eq!(block.index, 1);
    assert_eq!(block.output_rate_mhz(4_000_000), Ratio { over: 4_000_000_000, under: 1 });
    block.decimation = DecimationFactor::X3;
    assert_eq!(block.output_rate_mhz(4_000_000), Ratio { over: 4_000_000_000, under: 3 });
    assert!(!block.mixer_active());
    block.mixer_mode = MixerMode::FineMix;
    assert!(block.mixer_active());
}

#[test]
fn presets_set_what_they_promise() {
    assert!(default_zcu208().adc_tiles.iter().all(|t| t.enabled && t.sample_rate_gsps == 4_000_000));
    let wide = wideband_capture();
    for (i, tile) in wide.adc_tiles.iter().enumerate() {
        assert_eq!(tile.index, i);
        assert_eq!(tile.sample_rate_gsps, 5_000_000);
        assert_eq!((tile.nyquist_zone, tile.nyquist_zone_index), (NyquistZone::FIRST, 1));
        for block in &tile.blocks {
            assert_eq!((block.nyquist_zone, block.planner_zone), (NyquistZone::SECOND, 2));
            assert_eq!(block.mixer_mode, MixerMode::FineMix);
            assert_eq!(block.nco_freq_mhz, mhz(1250.0));
            assert_eq!(block.decimation, DecimationFactor::X1);
        }
    }
    let narrow = narrowband_ddc();
    assert!(narrow.adc_tiles.iter().all(|t| t.sample_rate_gsps == 2_000_000
        && t.blocks.iter().all(|b| b.nyquist_zone == NyquistZone::FIRST && b.nco_freq_mhz == mhz(500.0)
            && b.decimation == DecimationFactor::X16)));
    let enabled: Vec<bool> = single_tile().adc_tiles.iter().map(|t| t.enabled).collect();
    assert_eq!(enabled, vec![true, false, false, false]);
}

#[test]
fn blocks_can_be_changed_in_place() {
    let mut config = RfdcConfig::default();
    config.adc_block_mut(2, 1).decimation = DecimationFactor::X40;
    assert_eq!(config.adc_block(2, 1).decimation, DecimationFactor::X40);
    assert_eq!(config.adc_block(2, 0).decimation, DecimationFactor::X1);
    assert_eq!(config.adc_tiles[2].zones_covering(mhz(15_000.0)), 8);
    assert_eq!(config.adc_tiles[2].zones_covering(mhz(16_000.0)), 8);
    assert_eq!(config.adc_tiles[2].zones_covering(mhz(16_000.000001)), 9);
}

#[test]
fn mixer_shift_follows_the_mode() {
    let tile = AdcTile::new(0);
    let mut block = AdcBlock::new(0);
    assert_eq!(mixer_shift(&block, &tile), None);
    block.mixer_mode = MixerMode::CoarseMix(CoarseMixFreq::MinusFsOver4);
    assert_eq!(mixer_shift(&block, &tile), Some(mhz(-1000.0)));
    block.mixer_mode = MixerMode::CoarseMix(CoarseMixFreq::FsOver2);
    assert_eq!(mixer_shift(&block, &tile), Some(mhz(2000.0)));
    block.mixer_mode = MixerMode::FineMix;
    block.nco_freq_mhz = mhz(2400.0);
    assert_eq!(mixer_shift(&block, &tile), Some(mhz(-1600.0)));
    block.nyquist_zone = NyquistZone::Zone2;
    assert_eq!(mixer_shift(&block, &tile), Some(mhz(1600.0)));
}

#[test]
fn imperfections_apply_only_when_enabled() {
    let mut config = AdcNonIdealities::default();
    let off = impairments(&config);
    assert!(!off.hd2 && !off.hd3 && !off.noise && !off.spur && off.half_levels.is_none());
    config.enabled = true;
    let on = impairments(&config);
    assert!(on.hd2 && on.hd3 && on.noise && on.spur);
    assert_eq!(on.half_levels, Some(2048));
    config.quantization_bits = 25;
    config.hd2_dbc = 0;
    config.enob = 0;
    let some = impairments(&config);
    assert!(!some.hd2 && some.hd3 && !some.noise && some.half_levels.is_none());
    config.quantization_bits = 1;
    assert_eq!(impairments(&config).half_levels, Some(1));
}

#[test]
fn codes_are_held_in_range() {
    assert_eq!(clamp_code(2048, 2048), 2047);
    assert_eq!(clamp_code(5000, 2048), 2047);
    assert_eq!(clamp_code(-2048, 2048), -2048);
    assert_eq!(clamp_code(-2049, 2048), -2048);
    assert_eq!(clamp_code(17, 2048), 17);
}

#[test]
fn spur_signs_cancel_over_four_samples() {
    let signs: Vec<(i8, i8)> = (0..8).map(spur_signs).collect();
    assert_eq!(&signs[..4], &[(1, 1), (-1, 1), (1, -1), (-1, -1)]);
    assert_eq!(&signs[..4], &signs[4..]);
    assert_eq!(signs[..4].iter().map(|s| s.0 as i32).sum::<i32>(), 0);
    assert_eq!(signs[..4].iter().map(|s| s.1 as i32).sum::<i32>(), 0);
}

#[test]
fn resampling_reads_the_sample_below_the_position() {
    let sim = mhz(15_000.0);
    let tile = mhz(4_000.0);
    assert_eq!(resampled_len(15_000, sim, tile), 4_000);
    assert_eq!(resampled_len(15_000, sim, 0), 0);
    // Sample 1 sits at 3.75: centre 3, fraction 0.75 of 4096 phases.
    let p = resample_point(1, 15_000, sim, tile);
    assert_eq!(p.first, 3 - RESAMPLER_RADIUS);
    assert_eq!(p.phase, 3072);
    assert_eq!(p.between, 0);
    assert!(!p.interior);
    let q = resample_point(100, 15_000, sim, tile);
    assert_eq!(q.first, 375 - RESAMPLER_RADIUS);
    assert!(q.interior);
    // Equal rates read the samples themselves.
    let r = resample_point(40, 100, tile, tile);
    assert_eq!((r.first, r.phase, r.between), (24, 0, 0));
}

#[test]
fn capture_plan_follows_the_block() {
    let tile = AdcTile::new(0);
    let mut block = AdcBlock::new(0);
    block.decimation = DecimationFactor::X8;
    block.mixer_mode = MixerMode::FineMix;
    block.nco_freq_mhz = mhz(300.0);
    let plan: CapturePlan =
        plan_capture(75_000, mhz(15_000.0), &block, &tile, DdcSettings::default(), 10, SpectrumAnalysis::default());
    assert_eq!((plan.wide_fft, plan.wide_pad), (16_384, 1));
    assert_eq!(plan.tile_len, 20_000);
    assert_eq!((plan.tile_fft, plan.tile_pad), (16_384, 1));
    assert_eq!(plan.output_len, 2_490);
    assert_eq!(plan.output_bins_requested, 2_048);
    assert_eq!(plan.output_bins_analysed, 2_048);
    assert_eq!(plan.output_pad, 2);
    assert!(plan.complex_output);
    assert_eq!(plan.mixer_shift_mhz, Some(mhz(300.0)));
    assert_eq!(plan.output_sample_rate_mhz, Ratio { over: 4_000_000_000, under: 8 });
    assert_eq!(plan.output_rbw_mhz, Ratio { over: 4_000_000_000, under: 8 * 2048 });
    assert_eq!(plan.input_len, 75_000);
    assert_eq!(plan.window, FftWindow::BlackmanHarris);
    let points = [
        plan.input_points,
        plan.folded_points,
        plan.post_mixer_points,
        plan.output_points,
    ];
    assert_eq!(points, [8_193, 8_193, 16_384, 4_096]);
    assert_eq!(plan.axis(Pane::Input).last(), Some(&8_192));
    assert_eq!(plan.axis(Pane::Output)[0], -2_048);
    assert_eq!(plan.axis(Pane::Output)[2_048], 0);
    // Nothing settles in time.
    let ddc = DdcSettings { path: DataPath::RealToReal, scale: FineMixerScale::ZeroPointSeven };
    let fast =
        SpectrumAnalysis { window: FftWindow::FlatTop, detail: SpectrumDetail::Fast };
    let short = plan_capture(300, mhz(15_000.0), &block, &tile, ddc, 10, fast);
    assert!(!short.complex_output);
    assert_eq!(short.mixer_gain, MixerGain::HalfPower);
    assert_eq!((short.tile_len, short.output_len), (80, 0));
    assert_eq!((short.output_bins_analysed, short.output_bins_requested), (0, 512));
    assert_eq!(short.output_rbw_mhz, Ratio { over: 0, under: 1 });
    assert_eq!(short.output_points, 0);
    assert_eq!(short.window, FftWindow::FlatTop);
    // Eighty samples at the tile rate, padded to 2048 points of which 300 and 80 are samples.
    assert_eq!((short.input_points, short.folded_points), (301, 81));
    assert_eq!(short.post_mixer_points, 81);
}

#[test]
fn imperfections_apply_in_order() {
    let mut config = AdcNonIdealities { enabled: true, ..AdcNonIdealities::default() };
    config.quantization_bits = 0;
    let found = impairments(&config);
    let (out, _) = apply_digital_non_idealities(
        &vec![0i64, 0, 0, 0],
        &found,
        &|i, v| v + 10 * i as i64 + 1,
        &|v, signs| v * 100 + (signs.0 + signs.1) as i64,
        &|v| (v * 2, false),
        &|v, _| v + 1_000_000,
    );
    // (10 i + 1) * 100 + spur, doubled; no quantiser at zero bits.
    assert_eq!(out, vec![204, 2200, 4200, 6196]);
}

#[test]
fn resampling_covers_the_whole_record() {
    let record: Vec<i64> = (0..150).collect();
    // A kernel of one tap, its middle one, reads the samples themselves.
    let middle = |acc: i64, x: i64, tap: usize, _: ResamplePoint| {
        acc + if tap as i64 == RESAMPLER_RADIUS { x } else { 0 }
    };
    let finish = |acc: i64, _: ResamplePoint| acc;
    let out = sample_adc_at_tile_rate(&record, mhz(15_000.0), mhz(5_000.0), 0, &middle, &finish);
    assert_eq!(out, (0..50).map(|n| 3 * n).collect::<Vec<i64>>());
    let none = sample_adc_at_tile_rate(&record, mhz(15_000.0), 0, 0, &middle, &finish);
    assert!(none.is_empty());
    // All ones: taps that miss the record are left out, and only near its ends.
    let count = |acc: i64, _: i64, _: usize, _: ResamplePoint| acc + 1;
    let missed = |acc: i64, p: ResamplePoint| (acc, p.interior);
    let taps = sample_adc_at_tile_rate(&record, mhz(15_000.0), mhz(5_000.0), 0, &count, &missed);
    assert_eq!(taps[0], (17, false));
    assert_eq!(taps[5], (32, false));
    assert_eq!(taps[6], (33, true));
    assert_eq!(taps[44], (33, true));
    assert_eq!(taps[45], (31, false));
}

#[test]
fn tuning_a_block_lands_its_target_on_zero() {
    let tile = AdcTile::new(0);
    let mut block = tile.blocks[0];
    let at = block.auto_tune(tile.sample_rate_gsps, mhz(2400.0));
    assert_eq!(at.zone_index, 2);
    assert_eq!(at.nco_freq_mhz, mhz(-1600.0));
    assert_eq!((block.nyquist_zone, block.planner_zone), (NyquistZone::Zone2, 2));
    assert_eq!(block.mixer_mode, MixerMode::FineMix);
    assert_eq!(mixer_shift(&block, &tile), Some(mhz(-1600.0)));
    assert_eq!(block.decimation, DecimationFactor::X1);
    let at = block.auto_tune(1_966_080, mhz(2400.0));
    assert_eq!((at.zone_index, block.nco_freq_mhz), (3, mhz(433.92)));
}

#[test]
fn zones_are_selected_by_parity() {
    let mut block = AdcBlock::new(1);
    block.select_zone(9);
    assert_eq!((block.nyquist_zone, block.planner_zone), (NyquistZone::FIRST, 9));
    block.select_zone(16);
    assert_eq!((block.nyquist_zone, block.planner_zone), (NyquistZone::SECOND, 16));
    assert!(block.nyquist_zone.is_even());
}

#[test]
fn tabulated_resampler_matches_direct_evaluation() {
    let radius = RESAMPLER_RADIUS as f64;
    let kernel = |dx: f64| {
        let norm_x = dx.abs() / (radius + 1.0);
        if norm_x >= 1.0 {
            return 0.0;
        }
        let sinc = if dx.abs() < 1e-9 { 1.0 } else { (PI * dx).sin() / (PI * dx) };
        let window = 0.35875
            + 0.48829 * (PI * norm_x).cos()
            + 0.14128 * (2.0 * PI * norm_x).cos()
            + 0.01168 * (3.0 * PI * norm_x).cos();
        sinc * window
    };
    let table: Vec<Vec<f64>> = (0..=RESAMPLER_PHASES)
        .map(|p| {
            let frac = p as f64 / RESAMPLER_PHASES as f64;
            (0..RESAMPLER_TAPS).map(|j| kernel(frac + radius - j as f64)).collect()
        })
        .collect();

    // The kernel evaluated at every sample's exact position.
    let direct = |w: &[f64], sim: f64, tile: f64| -> Vec<f64> {
        let ratio = sim / tile;
        let num = (w.len() as f64 / ratio).floor() as usize;
        (0..num)
            .map(|n| {
                let pos = n as f64 * ratio;
                let centre = pos.floor() as i64;
                let (mut val, mut weight_sum) = (0.0, 0.0);
                for k in (centre - RESAMPLER_RADIUS)..=(centre + RESAMPLER_RADIUS) {
                    if k >= 0 && k < w.len() as i64 {
                        let tap = kernel(pos - k as f64);
                        val += w[k as usize] * tap;
                        weight_sum += tap;
                    }
                }
                if weight_sum.abs() > 1e-9 { val / weight_sum } else { 0.0 }
            })
            .collect()
    };

    let sim_fs = 15000.0;
    // 4000/2457.6/5000 divide the simulation rate into phases the table holds exactly;
    // 3930 does not, and exercises the interpolation between neighbouring phases.
    for tile_fs in [4000.0, 3930.0, 2457.6, 5000.0] {
        let samples: Vec<f64> = (0..4000)
            .map(|i| {
                let t = i as f64 / sim_fs;
                (2.0 * PI * 1234.5 * t).sin()
                    + 0.3 * (2.0 * PI * 6789.0 * t).cos()
                    + 0.05 * (2.0 * PI * 137.0 * t).sin()
            })
            .collect();

        let reference = direct(&samples, sim_fs, tile_fs);
        let rate = mhz(tile_fs) as f64;
        let tabulated = sample_adc_at_tile_rate(
            &samples,
            mhz(sim_fs),
            mhz(tile_fs),
            (0.0, 0.0),
            &|(val, weight): (f64, f64), x: f64, j: usize, p: ResamplePoint| {
                let t = p.between as f64 / rate;
                let tap = table[p.phase][j] + t * (table[p.phase + 1][j] - table[p.phase][j]);
                (val + x * tap, weight + tap)
            },
            &|(val, weight): (f64, f64), _: ResamplePoint| {
                if weight.abs() > 1e-9 { val / weight } else { 0.0 }
            },
        );
        assert_eq!(reference.len(), tabulated.len());

        let worst = reference
            .iter()
            .zip(&tabulated)
            .map(|(a, b)| (a - b).abs())
            .fold(0.0_f64, f64::max);
        let rms =
            (reference.iter().map(|s| s * s).sum::<f64>() / reference.len() as f64).sqrt();
        let error_dbc = 20.0 * (worst / rms).log10();
        assert!(error_dbc < -140.0, "Fs={tile_fs}: tabulation differs by {error_dbc:.1} dBc");
    }
}
