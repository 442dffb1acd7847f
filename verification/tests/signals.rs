//! Tones, harmonics, clocks and recorded files.

use rfsoc_sim::iq_file::{
    decode_binary, decode_iq, finish_csv, scan_csv, CsvValue, IqContent, IqError, IqFileLoader,
    IqFormat, RawIq, SignalSource,
};
use rfsoc_sim::clock::{SampleClock, Turn};
use rfsoc_sim::file_path::FilePath;
use rfsoc_sim::noise::hop_channel;
use rfsoc_sim::signal::{
    max_harmonic, pulse_region, symbol_window, top_harmonic_mhz, twice_hop_frequency,
    twice_hop_offset, HarmonicSeries, Instant, PulseRegion, SignalGenerator, Tone,
    MAX_HARMONICS,
    ToneModulation, ToneRecipe,
};
use rfsoc_sim::sim::SimClock;
use rfsoc_sim::summary::{tone_summary, ToneSummary};
use rfsoc_sim::units::Ratio;

fn micro(x: f64) -> i64 {
    (x * 1e6).round() as i64
}

fn parse(text: &str) -> Result<u64, String> {
    match text.parse::<f64>() {
        Ok(v) => Ok(v.to_bits()),
        Err(e) => Err(e.to_string()),
    }
}

fn load_csv(text: &str) -> Result<Vec<RawIq>, IqError> {
    let scan = match decode_iq(IqFormat::Csv, text.as_bytes().to_vec())? {
        IqContent::Rows(scan) => scan,
        IqContent::Samples(_) => unreachable!(),
    };
    let values: Vec<CsvValue> = scan
        .rows
        .iter()
        .map(|row| match (parse(&row.i), parse(&row.q)) {
            (Ok(i), Ok(q)) => CsvValue::Pair(i, q),
            (Err(e), _) => CsvValue::BadI(e),
            (_, Err(e)) => CsvValue::BadQ(e),
        })
        .collect();
    finish_csv(&scan, &values)
}

fn number(raw: RawIq) -> (f64, f64) {
    match raw {
        RawIq::F32(i, q) => (f32::from_bits(i) as f64, f32::from_bits(q) as f64),
        RawIq::F64(i, q) => (f64::from_bits(i), f64::from_bits(q)),
        RawIq::I16(i, q) => (i as f64 / 32768.0, q as f64 / 32768.0),
    }
}

fn path(text: &str) -> FilePath {
    FilePath { bytes: text.as_bytes().to_vec() }
}

#[test]
fn iq_file_loader_sc16_parsing() {
    let mut data = Vec::new();
    data.extend_from_slice(&32767i16.to_le_bytes());
    data.extend_from_slice(&(-32768i16).to_le_bytes());
    data.extend_from_slice(&0i16.to_le_bytes());
    data.extend_from_slice(&16384i16.to_le_bytes());

    let mut loader = IqFileLoader::default();
    loader.path = Some(path("test_sc16.iq"));
    loader.format = IqFormat::Sc16;
    assert!(loader.load().unwrap().is_none(), "nothing is cached yet");
    let samples = decode_binary(loader.format, &data).unwrap();
    loader.store(samples);

    let samples: Vec<(f64, f64)> =
        loader.load().unwrap().unwrap().iter().map(|s| number(*s)).collect();
    assert_eq!(samples.len(), 2);
    assert!((samples[0].0 - (32767.0 / 32768.0)).abs() < 1e-6);
    assert!((samples[0].1 - (-1.0)).abs() < 1e-6);
    assert!((samples[1].1 - 0.5).abs() < 1e-6);
}

#[test]
fn iq_file_loader_generate_at_time_repeating() {
    let samples = load_csv("1.0, 1.0\n2.0, 2.0\n3.0, 3.0\n4.0, 4.0\n").unwrap();
    let mut loader = IqFileLoader::default();
    loader.path = Some(path("test_repeat.csv"));
    loader.format = IqFormat::Csv;
    loader.sample_rate_mhz = micro(1.0);
    loader.repeat = true;
    loader.repeat_period_us = micro(2.0);
    loader.store(samples);

    // File is 4 µs long with a 2 µs gap, so the cycle is 6 µs.
    let clock = SampleClock { start_time_us: 0, sample_rate_mhz: micro(1.0), lead: 0 };
    let file = loader.load().unwrap().unwrap();
    let out: Vec<(f64, f64)> = loader
        .playback(file.len(), 10, &clock)
        .into_iter()
        .map(|i| match i {
            Some(i) => number(file[i]),
            None => (0.0, 0.0),
        })
        .collect();
    assert_eq!(out[0], (1.0, 1.0));
    assert_eq!(out[3], (4.0, 4.0));
    assert_eq!(out[4], (0.0, 0.0));
    assert_eq!(out[5], (0.0, 0.0));
    assert_eq!(out[6], (1.0, 1.0));
    assert_eq!(out[9], (4.0, 4.0));
}

#[test]
fn playback_rounds_to_the_nearest_sample_and_stops() {
    let mut loader = IqFileLoader::default();
    loader.sample_rate_mhz = micro(1.0);
    loader.repeat = false;
    let clock = SampleClock { start_time_us: 0, sample_rate_mhz: micro(2.0), lead: 0 };
    // Halves go up; the instant 3.5 rounds past the last sample.
    assert_eq!(
        loader.playback(4, 10, &clock),
        vec![Some(0), Some(1), Some(1), Some(2), Some(2), Some(3), Some(3), None, None, None]
    );
    // Before time zero the first sample is heard.
    let early = SampleClock { start_time_us: micro(-3.0) as i128, sample_rate_mhz: micro(1.0), lead: 0 };
    assert_eq!(loader.playback(4, 5, &early), vec![Some(0), Some(0), Some(0), Some(0), Some(1)]);
    // One cycle later a repeating file sounds the same.
    loader.repeat = true;
    loader.repeat_period_us = micro(2.0);
    let later = SampleClock { start_time_us: micro(6.0) as i128, sample_rate_mhz: micro(2.0), lead: 0 };
    assert_eq!(loader.playback(4, 20, &clock), loader.playback(4, 20, &later));
}

#[test]
fn loader_reads_again_after_a_change() {
    let mut loader = IqFileLoader::default();
    assert!(matches!(loader.load(), Err(IqError::NoPath)));
    assert_eq!(loader.load().unwrap_err().message(), "No file path set");
    loader.path = Some(path("a"));
    loader.store(vec![RawIq::I16(1, 2)]);
    assert_eq!(loader.load().unwrap(), Some(&vec![RawIq::I16(1, 2)]));
    loader.path = Some(path("b"));
    assert!(loader.load().unwrap().is_none());
    loader.path = Some(path("a"));
    assert!(loader.load().unwrap().is_some());
    // Another spelling of the same path is the same file.
    loader.path = Some(path("a/"));
    assert!(loader.load().unwrap().is_some());
    loader.path = Some(path("./a"));
    assert!(loader.load().unwrap().is_none());
    loader.clear_cache();
    assert!(loader.load().unwrap().is_none());
}

#[test]
fn paths_are_compared_by_components() {
    let spellings = [
        "", ".", "/", "//", "/.", "./", "./.", "a", "./a", "a/", "a/.", "a//", "/a", "//a", "/./a", "a/b",
        "a//b", "a/./b", "a/b/", "a/b/.", "./a/b", "/a/b", "a/../b", "..", "../", "a/..", ".a", "a.",
        "a/.b", "...", "b",
    ];
    for x in spellings {
        for y in spellings {
            assert_eq!(
                path(x).is_same(&path(y)),
                std::path::Path::new(x) == std::path::Path::new(y),
                "{x:?} and {y:?}"
            );
        }
    }
    assert_eq!(path("/a//./b/").components(), vec![b"a".to_vec(), b"b".to_vec()]);
    // Paths need not be text.
    let odd = FilePath { bytes: vec![0xff, 0x2f, 0xfe] };
    let same = FilePath { bytes: vec![0xff, 0x2f, 0x2f, 0xfe, 0x2f] };
    assert!(odd.is_same(&same) && odd.is_same(&odd.duplicate()));
    assert!(!odd.is_same(&FilePath { bytes: vec![0xff, 0x2f, 0xff] }));
}

#[test]
fn binary_files_must_hold_whole_samples() {
    for (format, stride, message) in [
        (IqFormat::BinaryF32, 8, "File size not a multiple of 8 bytes (2 × f32)"),
        (IqFormat::BinaryF64, 16, "File size not a multiple of 16 bytes (2 × f64)"),
        (IqFormat::Sc16, 4, "File size not a multiple of 4 bytes (2 × i16)"),
    ] {
        assert_eq!(decode_binary(format, &vec![0; stride * 3]).unwrap().len(), 3);
        let error = decode_binary(format, &vec![0; stride * 3 + 1]).unwrap_err();
        assert_eq!(error.message(), message);
    }
    let mut data = Vec::new();
    data.extend_from_slice(&1.5f32.to_le_bytes());
    data.extend_from_slice(&(-2.25f32).to_le_bytes());
    let samples = decode_binary(IqFormat::BinaryF32, &data).unwrap();
    assert_eq!(number(samples[0]), (1.5, -2.25));
    let mut wide = Vec::new();
    wide.extend_from_slice(&std::f64::consts::PI.to_le_bytes());
    wide.extend_from_slice(&(-1e-300f64).to_le_bytes());
    match decode_iq(IqFormat::BinaryF64, wide).unwrap() {
        IqContent::Samples(s) => assert_eq!(number(s[0]), (std::f64::consts::PI, -1e-300)),
        IqContent::Rows(_) => panic!("binary files hold samples"),
    }
}

#[test]
fn csv_skips_comments_and_reports_the_first_fault() {
    let samples = load_csv("# header\r\n\n  1 , 2 , extra\n\t3,4").unwrap();
    assert_eq!(samples.iter().map(|s| number(*s)).collect::<Vec<_>>(), vec![(1.0, 2.0), (3.0, 4.0)]);
    let missing = load_csv("1,2\n\n7\nx,1\n").unwrap_err();
    assert_eq!(missing.message(), "Line 3: expected I,Q values");
    let bad_i = load_csv("1,2\nx,1\n7\n").unwrap_err();
    assert_eq!(bad_i.message(), "Line 2: invalid I value: invalid float literal");
    let bad_q = load_csv("1,\n").unwrap_err();
    assert_eq!(bad_q.message(), "Line 1: invalid Q value: cannot parse float from empty string");
    let scan = scan_csv("1,2\n3");
    assert_eq!((scan.rows.len(), scan.stopped), (1, Some(2)));
    let broken = decode_iq(IqFormat::Csv, vec![0x31, 0x2c, 0xff]).unwrap_err();
    assert!(broken.message().starts_with("Invalid UTF-8: "));
}

#[test]
fn sources_have_their_rates() {
    assert_eq!(SignalSource::default().sample_rate_mhz(), micro(10_000.0));
    assert_eq!(SignalSource::File(IqFileLoader::default()).sample_rate_mhz(), micro(1000.0));
    assert_eq!(IqFormat::Sc16.label(), "Binary i16 (sc16)");
    assert_eq!(IqFormat::Csv.label(), "CSV (I, Q)");
    assert_eq!(SignalGenerator::default().tones, vec![Tone::default()]);
}

#[test]
fn harmonic_series_follow_their_shapes() {
    let fs = micro(15_000.0);
    // 7500 / 1000 fits seven harmonics.
    let f = micro(1000.0);
    assert_eq!(max_harmonic(f, fs), 7);
    let terms = |kind: ToneModulation| -> Vec<(u64, bool, u64)> {
        let series = HarmonicSeries::new(&kind, f, fs);
        series.terms.iter().map(|t| (t.number, t.negative, t.divisor)).collect()
    };
    assert_eq!(
        terms(ToneModulation::Square),
        vec![(1, false, 1), (3, false, 3), (5, false, 5), (7, false, 7)]
    );
    assert_eq!(
        terms(ToneModulation::Triangle),
        vec![(1, false, 1), (3, true, 9), (5, false, 25), (7, true, 49)]
    );
    assert_eq!(
        terms(ToneModulation::Sawtooth)[..4],
        [(1, false, 1), (2, true, 2), (3, false, 3), (4, true, 4)]
    );
    assert_eq!(terms(ToneModulation::Cw), vec![(1, false, 1)]);
    assert_eq!(top_harmonic_mhz(&ToneModulation::Square, f, fs), micro(7000.0) as i128);
    assert_eq!(top_harmonic_mhz(&ToneModulation::Cw, f, fs), f as i128);
    // A low fundamental stops at the ceiling, one above Nyquist keeps itself.
    assert_eq!(max_harmonic(micro(1.0), fs), 64);
    assert_eq!(max_harmonic(micro(9000.0), fs), 1);
    assert_eq!(max_harmonic(0, fs), 1);
    assert_eq!(top_harmonic_mhz(&ToneModulation::Triangle, micro(1.0), fs), micro(63.0) as i128);
}

#[test]
fn recipes_bring_parameters_into_range() {
    let fs = micro(15_000.0);
    let with = |modulation: ToneModulation, bandwidth: f64| Tone {
        bandwidth_mhz: micro(bandwidth),
        modulation,
        ..Tone::default()
    };
    assert_eq!(with(ToneModulation::Cw, 0.0).recipe(fs), ToneRecipe::Carrier);
    assert_eq!(with(ToneModulation::Cw, 20.0).recipe(fs), ToneRecipe::Channel);
    assert!(with(ToneModulation::Cw, 20.0).is_channel());
    assert!(!with(ToneModulation::Square, 20.0).is_channel());
    assert_eq!(
        with(ToneModulation::Square, 0.0).recipe(fs),
        ToneRecipe::Harmonics { max_harmonic: 25 }
    );
    assert_eq!(
        with(ToneModulation::AmModulated { depth_percent: micro(150.0), mod_freq_khz: 7 }, 0.0)
            .recipe(fs),
        ToneRecipe::Am { depth_percent: micro(100.0), mod_freq_khz: 7 }
    );
    assert_eq!(
        with(ToneModulation::FmModulated { dev_mhz: 5, mod_freq_khz: 0 }, 0.0).recipe(fs),
        ToneRecipe::Fm { dev_mhz: 0, mod_freq_khz: 0 }
    );
    assert_eq!(
        with(ToneModulation::SweptChirp { sweep_period_us: 0, triangular: true }, 0.0).recipe(fs),
        ToneRecipe::Chirp {
            period_us: 1_000,
            bandwidth_mhz: micro(100.0),
            twice_start_mhz: micro(500.0),
            triangular: true,
        }
    );
    let radar = ToneModulation::PulsedRadar {
        pulse_width_us: micro(50.0),
        pri_us: micro(20.0),
        rise_ns: micro(20_000.0),
        chirp_mhz: 0,
    };
    assert_eq!(
        with(radar, 0.0).recipe(fs),
        ToneRecipe::Pulse {
            pri_us: micro(20.0),
            width_us: micro(20.0),
            rise_ns: micro(10_000.0) as i128,
            chirp_mhz: 0,
        }
    );
    assert_eq!(
        with(
            ToneModulation::FreqHopping { hop_step_mhz: 3, num_channels: 0, hop_rate_hz: 0 },
            0.0
        )
        .recipe(fs),
        ToneRecipe::Hopping { step_mhz: 3, channels: 1, rate_hz: 1_000 }
    );
    assert_eq!(
        with(ToneModulation::DigitalQpsk { symbol_rate_msps: 0, rrc_alpha: micro(2.0) }, 0.0)
            .recipe(fs),
        ToneRecipe::Qpsk { symbol_rate_msps: 1_000, alpha: micro(1.0) }
    );
}

#[test]
fn modulations_have_their_names() {
    let all = ToneModulation::all_variants();
    let names: Vec<&str> = all.iter().map(|m| m.label()).collect();
    assert_eq!(
        names,
        vec![
            "CW Carrier",
            "Square",
            "Sawtooth",
            "Triangle",
            "AM Modulated",
            "FM Modulated",
            "FMCW Chirp (sawtooth)",
            "Pulsed Radar",
            "Frequency Hopping",
            "Digital QPSK",
        ]
    );
    let labels: Vec<Option<&str>> = all.iter().map(|m| m.bandwidth_label()).collect();
    assert_eq!(labels[0], Some("Channel BW"));
    assert_eq!(labels[6], Some("Sweep BW"));
    assert_eq!(labels.iter().filter(|l| l.is_some()).count(), 2);
    let chirped = ToneModulation::PulsedRadar {
        pulse_width_us: 0,
        pri_us: 0,
        rise_ns: 0,
        chirp_mhz: 1,
    };
    assert_eq!(chirped.label(), "Pulsed Radar (chirped)");
    let back = ToneModulation::SweptChirp { sweep_period_us: 1, triangular: true };
    assert_eq!(back.label(), "FMCW Chirp (triangular)");
}

#[test]
fn clocks_count_whole_periods() {
    let clock = SampleClock {
        start_time_us: micro(2.0) as i128,
        sample_rate_mhz: micro(10.0),
        lead: 0,
    };
    // 2 µs at 1 MHz is two periods; ten samples later it is three.
    assert_eq!(clock.times_elapsed(0, 1_000_000, 1), 2);
    assert_eq!(clock.times_elapsed(9, 1_000_000, 1), 2);
    assert_eq!(clock.times_elapsed(10, 1_000_000, 1), 3);
    let before = SampleClock { start_time_us: -1, ..clock };
    assert_eq!(before.times_elapsed(0, 1_000_000, 1), -1);
    // A frame that starts ten samples on joins without a seam, and a run-up ends where it begins.
    let next = SampleClock { start_time_us: micro(3.0) as i128, ..clock };
    let led = SampleClock { lead: 10, ..next };
    for i in 0..50 {
        assert_eq!(next.times_elapsed(i, 730_000, 1), clock.times_elapsed(10 + i, 730_000, 1));
        assert_eq!(next.turn(i, 730_000, 1), clock.turn(10 + i, 730_000, 1));
        assert_eq!(next.into_repetition(i, micro(0.7)), clock.into_repetition(10 + i, micro(0.7)));
        assert_eq!(led.turn(i, 730_000, 1), clock.turn(i, 730_000, 1));
    }
    // Sample 4 is at 2.4 us: 0.3 us into the fourth repetition of 0.7 us.
    let whole = 10_000_000_000_000_000_000;
    assert_eq!(
        clock.into_repetition(4, micro(0.7)),
        Turn { position: 300_000 * 10_000_000, whole: 700_000 * 10_000_000 }
    );
    assert_eq!(clock.turn(4, 1_000_000, 1), Turn { position: whole / 10 * 4, whole });
    assert_eq!(clock.turn(4, -1_000_000, 1), Turn { position: whole / 10 * 6, whole });
    assert_eq!(before.turn(0, 1_000_000, 1).position, 9_999_990_000_000_000_000);
    // A thousandth of the rate turns a thousandth as far.
    assert_eq!(clock.turn(4, 1_000_000, 1_000).position, 24 * whole / 10);
    assert_eq!(symbol_window(&clock, 10, micro(1.0)), (2 - 6, 3 + 6));
}

#[test]
fn phases_stay_exact_however_late() {
    // A million years in, a whole number of seconds is a whole number of turns.
    let years: i128 = 31_536_000 * 1_000_000;
    let late = SampleClock {
        start_time_us: years * 1_000_000_000_000,
        sample_rate_mhz: micro(15_000.0),
        lead: 0,
    };
    let zero = SampleClock { start_time_us: 0, ..late };
    for f in [1, 299_792_458, 3_000_000_007, 123_456_789_012_345_678] {
        for i in [0, 1, 7, 524_287] {
            assert_eq!(late.turn(i, f, 1), zero.turn(i, f, 1), "{f} Hz at {i}");
        }
    }
    assert_eq!(late.times_elapsed(0, 3_000_000_007, 1), years * 3_000_000_007);
}

#[test]
fn hop_grid_is_centred() {
    // Eight channels 20 MHz apart around 3000 MHz: 2930 to 3070.
    assert_eq!(twice_hop_offset(0, 8, micro(20.0)), 2 * micro(-70.0) as i128);
    assert_eq!(twice_hop_offset(7, 8, micro(20.0)), 2 * micro(70.0) as i128);
    assert_eq!(twice_hop_frequency(micro(3000.0), 3, 8, micro(20.0)), 2 * micro(2990.0) as i128);
    assert_eq!(twice_hop_frequency(micro(1.0), 0, 8, micro(20.0)), 2, "never below one hertz");
}

#[test]
fn pulses_have_two_equal_edges() {
    assert_eq!(pulse_region(-1, 100, 10), PulseRegion::Off);
    assert_eq!(pulse_region(101, 100, 10), PulseRegion::Off);
    assert_eq!(pulse_region(3, 100, 10), PulseRegion::Edge { depth: 3 });
    assert_eq!(pulse_region(97, 100, 10), PulseRegion::Edge { depth: 3 });
    assert_eq!(pulse_region(50, 100, 10), PulseRegion::Flat);
    assert_eq!(pulse_region(0, 100, 0), PulseRegion::Flat);
}

#[test]
fn summaries_state_the_occupied_spectrum() {
    let fs = micro(15_000.0);
    let with = |modulation: ToneModulation, bandwidth: f64| Tone {
        frequency_mhz: micro(3000.0),
        bandwidth_mhz: micro(bandwidth),
        modulation,
        ..Tone::default()
    };
    assert_eq!(tone_summary(&with(ToneModulation::Cw, 0.0), fs), ToneSummary::Line);
    assert_eq!(
        tone_summary(&with(ToneModulation::Cw, 21.0), fs),
        ToneSummary::Channel {
            bandwidth_mhz: micro(21.0),
            twice_low: micro(5979.0) as i128,
            twice_high: micro(6021.0) as i128,
        }
    );
    assert_eq!(
        tone_summary(&with(ToneModulation::Sawtooth, 0.0), fs),
        ToneSummary::Harmonics { all: true, top_mhz: micro(6000.0) as i128 }
    );
    let fm = ToneModulation::FmModulated { dev_mhz: micro(10.0), mod_freq_khz: micro(1000.0) };
    assert_eq!(
        tone_summary(&with(fm, 0.0), fs),
        ToneSummary::Carson { bandwidth_mhz: Ratio { over: 22_000_000_000, under: 1000 } }
    );
    let radar = ToneModulation::PulsedRadar {
        pulse_width_us: micro(2.0),
        pri_us: micro(20.0),
        rise_ns: 0,
        chirp_mhz: micro(50.0),
    };
    assert_eq!(
        tone_summary(&with(radar, 0.0), fs),
        ToneSummary::Pulses {
            duty_percent: Ratio { over: 200_000_000_000_000, under: 20_000_000 },
            prf_khz: Ratio { over: 1_000_000_000_000_000, under: 20_000_000 },
            compression: Some(Ratio { over: 100_000_000_000_000, under: 1_000_000 }),
        }
    );
    let hops = ToneModulation::FreqHopping {
        hop_step_mhz: micro(20.0),
        num_channels: 8,
        hop_rate_hz: micro(500_000.0),
    };
    assert_eq!(
        tone_summary(&with(hops, 0.0), fs),
        ToneSummary::Hops {
            channels: 8,
            span_mhz: micro(140.0) as i128,
            dwell_us: Ratio { over: 1_000_000_000_000_000_000, under: 500_000_000_000 },
        }
    );
    let qpsk = ToneModulation::DigitalQpsk { symbol_rate_msps: micro(20.0), rrc_alpha: 350_000 };
    assert_eq!(
        tone_summary(&with(qpsk, 0.0), fs),
        ToneSummary::Symbols {
            occupied_mhz: Ratio { over: 27_000_000_000_000, under: 1_000_000 },
        }
    );
    let sweep = ToneModulation::SweptChirp { sweep_period_us: micro(100.0), triangular: true };
    assert_eq!(
        tone_summary(&with(sweep, 0.0), fs),
        ToneSummary::Sweep {
            twice_low: micro(5900.0) as i128,
            twice_high: micro(6100.0) as i128,
            sweep_us: Ratio { over: 100_000_000, under: 2 },
            both_ways: true,
        }
    );
    let am = ToneModulation::AmModulated { depth_percent: micro(-1.0), mod_freq_khz: 9 };
    assert_eq!(
        tone_summary(&with(am, 0.0), fs),
        ToneSummary::Sidebands { offset_khz: 9, depth_percent: 0 }
    );
}

#[test]
fn simulated_time_runs_at_its_speed() {
    let mut clock = SimClock::default();
    clock.tick(None);
    assert_eq!(clock.time_us, micro(16_000.0) as i128);
    clock.tick(Some(micro(20_000.0)));
    assert_eq!(clock.time_us, micro(36_000.0) as i128);
    // A long frame counts for a tenth of a second.
    clock.tick(Some(micro(5_000_000.0)));
    assert_eq!(clock.time_us, micro(136_000.0) as i128);
    assert!(!clock.step(), "a running clock does not step");
    clock.toggle();
    clock.tick(Some(micro(20_000.0)));
    assert_eq!(clock.time_us, micro(136_000.0) as i128);
    clock.speed = micro(0.25);
    assert!(clock.step());
    assert_eq!(clock.time_us, micro(138_500.0) as i128);
    clock.reset();
    assert_eq!(clock.time_us, 0);
    assert!(!clock.is_running);
    // Three frames of a third of a unit each.
    clock.toggle();
    clock.speed = 333_333;
    for _ in 0..3 {
        clock.tick(Some(1));
    }
    assert_eq!((clock.time_us, clock.fraction), (0, 999_999));
    clock.speed = 1;
    clock.tick(Some(1));
    assert_eq!((clock.time_us, clock.fraction), (1, 0));
}

#[test]
fn blocks_hold_every_tone_once_and_noise_last() {
    let mut generator = SignalGenerator::default();
    generator.tones.push(Tone { modulation: ToneModulation::Square, ..Tone::default() });
    // Each tone is a digit, appended in turn; the noise is a nine.
    let run = |generator: &SignalGenerator, n: usize| -> Vec<u64> {
        generator.generate(
            n,
            micro(15_000.0),
            0,
            |tone: &Tone, recipe: ToneRecipe, _: Instant| match (tone.modulation, recipe) {
                (ToneModulation::Cw, ToneRecipe::Carrier) => 1,
                (ToneModulation::Square, ToneRecipe::Harmonics { max_harmonic: 25 }) => 2,
                _ => 8,
            },
            |sum: u64, part: u64| sum * 10 + part,
            |sum: u64, i: usize| sum * 100 + 90 + i as u64,
        )
    };
    assert_eq!(run(&generator, 3), vec![1290, 1291, 1292]);
    generator.noise_enabled = false;
    assert_eq!(run(&generator, 3), vec![12, 12, 12]);
    generator.tones.clear();
    assert_eq!(run(&generator, 2), vec![0, 0], "no tones and no noise are silence");
    assert!(run(&generator, 0).is_empty());
}

#[test]
fn instants_are_absolute() {
    let clock = SampleClock {
        start_time_us: micro(0.5) as i128,
        sample_rate_mhz: micro(2.0),
        lead: 0,
    };
    let second = 2_000_000_000_000_000_000;
    let tone = Tone { frequency_mhz: micro(1.0), ..Tone::default() };
    // At 0.5 µs a 1 MHz carrier is half way round, at 1 µs it is back.
    let half = Turn { position: second / 2, whole: second };
    assert_eq!(tone.instant(&clock, 0), Instant::Carrier { carrier: half });
    let back = Turn { position: 0, whole: second };
    assert_eq!(tone.instant(&clock, 1), Instant::Carrier { carrier: back });
    assert_eq!(tone.instant(&clock, 2), Instant::Carrier { carrier: half });

    let am = ToneModulation::AmModulated { depth_percent: 0, mod_freq_khz: micro(500.0) };
    assert_eq!(
        Tone { modulation: am, ..tone }.instant(&clock, 0),
        Instant::Modulated {
            carrier: half,
            modulating: Turn { position: second * 250, whole: second * 1000 },
        }
    );
    let chirp = ToneModulation::SweptChirp { sweep_period_us: micro(0.4), triangular: false };
    assert_eq!(
        Tone { modulation: chirp, ..tone }.instant(&clock, 0),
        Instant::Swept {
            sweep: Turn { position: 100_000 * 2_000_000, whole: 400_000 * 2_000_000 },
        }
    );
    let pulse = ToneModulation::PulsedRadar {
        pulse_width_us: micro(0.2),
        pri_us: micro(0.4),
        rise_ns: micro(20.0),
        chirp_mhz: 0,
    };
    assert_eq!(
        Tone { modulation: pulse, ..tone }.instant(&clock, 0),
        Instant::Pulsed {
            carrier: half,
            interval: Turn { position: 100_000 * 2_000_000, whole: 400_000 * 2_000_000 },
            region: PulseRegion::Flat,
        }
    );
    let hop = ToneModulation::FreqHopping {
        hop_step_mhz: micro(1.0),
        num_channels: 2,
        hop_rate_hz: micro(4_000_000.0),
    };
    // The third hop of two channels half a megahertz either side of the carrier.
    let channel = hop_channel(2, 2);
    let twice = if channel == 0 { 1_000_000 } else { 3_000_000 };
    assert_eq!(
        Tone { modulation: hop, ..tone }.instant(&clock, 0),
        Instant::Hopped { channel, carrier: clock.turn(0, twice, 2) }
    );
    let qpsk = ToneModulation::DigitalQpsk { symbol_rate_msps: micro(3.0), rrc_alpha: 0 };
    assert_eq!(
        Tone { modulation: qpsk, ..tone }.instant(&clock, 0),
        Instant::Keyed {
            carrier: half,
            symbol: 1,
            into: Turn { position: second / 2, whole: second },
        }
    );
    let channel = Tone { bandwidth_mhz: 1, ..tone };
    assert_eq!(channel.instant(&clock, 5), Instant::Redrawn { index: 5 });
}

#[test]
fn channels_fill_the_bins_they_cover_and_their_mirrors() {
    let tone = Tone {
        frequency_mhz: micro(30.0),
        bandwidth_mhz: micro(20.0),
        ..Tone::default()
    };
    // Bins are 10 MHz apart: 20, 30 and 40 MHz are in the channel, its edges included.
    let spectrum = tone
        .synthesise_channel(10, micro(100.0), 0, |k| k as i32, |b| -b)
        .unwrap();
    assert_eq!(spectrum, vec![0, 0, 2, 3, 4, 0, -4, -3, -2, 0]);
    // An odd length has no bin at half the rate.
    let odd = tone.synthesise_channel(9, micro(90.0), 0, |k| k as i32, |b| -b).unwrap();
    assert_eq!(odd, vec![0, 0, 2, 3, 0, 0, -3, -2, 0]);
    let narrow = Tone { frequency_mhz: micro(35.0), bandwidth_mhz: micro(1.0), ..tone };
    assert!(narrow.synthesise_channel(10, micro(100.0), 0, |k| k as i32, |b| -b).is_none());
    assert!(tone.synthesise_channel(3, micro(100.0), 0, |k| k as i32, |b| -b).is_none());
    assert!(tone.synthesise_channel(10, 0, 0, |k| k as i32, |b| -b).is_none());
}

#[test]
fn a_low_frequency_square_stays_below_nyquist() {
    let fs = micro(15000.0);
    // 10 MHz has room for 750 harmonics before Nyquist; the cap stands in for the finite
    // rise time a real generator has, and must not be exceeded either way.
    let top = top_harmonic_mhz(&ToneModulation::Square, micro(10.0), fs);
    assert!(top <= fs as i128 / 2);
    assert!(top <= 10_000_000 * MAX_HARMONICS as i128);
    // And a high frequency keeps at least the fundamental.
    assert!(top_harmonic_mhz(&ToneModulation::Square, micro(7000.0), fs) >= 7_000_000_000);
}
