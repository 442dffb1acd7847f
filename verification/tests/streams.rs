//! Pseudo-random streams, hopping and data symbols.

use rfsoc_sim::noise::{
    channel_seed, converter_seed, floor_seed, hop_channel, name_seed, node_stream_seed,
    qpsk_quadrant, splitmix64, unit_bits, xorshift64, Rng,
};

fn qpsk_symbol(k: i64) -> (f64, f64) {
    let angle = qpsk_quadrant(k) as f64 * std::f64::consts::PI / 2.0 + std::f64::consts::PI / 4.0;
    (angle.cos(), angle.sin())
}

#[test]
fn hop_sequence_visits_every_channel() {
    for n_chan in 2..=32usize {
        let mut seen = vec![false; n_chan];
        for idx in 0..(n_chan * 60) as i64 {
            seen[hop_channel(idx, n_chan)] = true;
        }
        assert!(
            seen.iter().all(|v| *v),
            "{n_chan} channels: only visited {} of them",
            seen.iter().filter(|v| **v).count()
        );
    }
}

#[test]
fn qpsk_data_is_not_periodic() {
    for period in 1..=16i64 {
        let mut identical = true;
        for k in 0..200i64 {
            let (a, b) = (qpsk_symbol(k), qpsk_symbol(k + period));
            if ((a.0 - b.0).powi(2) + (a.1 - b.1).powi(2)).sqrt() > 1e-9 {
                identical = false;
                break;
            }
        }
        assert!(!identical, "symbol stream repeats every {period}");
    }
}

#[test]
fn qpsk_symbols_are_the_four_constellation_points() {
    let mut quadrants = [0usize; 4];
    for k in 0..4000i64 {
        let s = qpsk_symbol(k);
        let norm = (s.0 * s.0 + s.1 * s.1).sqrt();
        assert!((norm - 1.0).abs() < 1e-12, "symbol off the unit circle");
        let q = match (s.0 > 0.0, s.1 > 0.0) {
            (true, true) => 0,
            (false, true) => 1,
            (false, false) => 2,
            (true, false) => 3,
        };
        quadrants[q] += 1;
    }
    for (q, count) in quadrants.iter().enumerate() {
        assert!(
            (*count as f64 - 1000.0).abs() < 200.0,
            "quadrant {q} got {count} of 4000 symbols"
        );
    }
}

#[test]
fn counter_hash_matches_the_published_sequence() {
    // First outputs of SplitMix64 seeded with zero.
    assert_eq!(splitmix64(0), 0xE220_A839_7B1D_CDAF);
    assert_eq!(splitmix64(0x9E37_79B9_7F4A_7C15), 0x6E78_9E6A_A1B9_65F4);
}

#[test]
fn neighbouring_counters_and_chunks_get_different_seeds() {
    for i in 0..1000u64 {
        assert_ne!(splitmix64(i), splitmix64(i + 1));
        assert_ne!(converter_seed(i as usize), converter_seed(i as usize + 8192));
    }
}

#[test]
fn registers_step_and_never_die() {
    // 1 -> 1 ^ 1<<13 -> ... worked by hand.
    assert_eq!(xorshift64(1), 0x4082_2041);
    assert_eq!(xorshift64(0), 0);
    let mut s = 1u64;
    for _ in 0..10_000 {
        s = xorshift64(s);
        assert_ne!(s, 0);
    }
    assert_eq!(unit_bits(u64::MAX), (1u64 << 53) - 1);
}

#[test]
fn a_zero_seed_still_runs() {
    let mut rng = Rng::new(0);
    let first = rng.next_u64();
    assert_eq!(first, 0x4082_2041u64.wrapping_mul(0x2545_F491_4F6C_DD1D));
    assert_ne!(rng.next_u64(), first);
}

#[test]
fn seeds_mix_their_parts() {
    assert_eq!(floor_seed(0), 0xDEAD_BEEF_CAFE_BABE);
    assert_eq!(channel_seed(0, 1), 0x2545_F491_4F6C_DD1D ^ (1u64.rotate_left(31)));
    assert_eq!(
        node_stream_seed(5, 3, 0x8000_0000_0000_0001),
        5 ^ 3u64.wrapping_mul(0x9E37_79B9_7F4A_7C15) ^ 0x8000_0000_0000_0001u64.rotate_left(17)
    );
}

#[test]
fn name_hash_is_fnv_with_the_low_bit_set() {
    assert_eq!(name_seed(&vec![]), 0xCBF2_9CE4_8422_2325);
    // FNV-1a of "a" is 0xAF63DC4C8601EC8C.
    assert_eq!(name_seed(&vec![b'a']), 0xAF63_DC4C_8601_EC8C | 1);
}
