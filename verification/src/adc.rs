//! The converter's digital side: which imperfections are in force, the quantiser, and the
//! interleaving pattern.

use vstd::arithmetic::power2::{lemma2_to64, lemma_pow2_unfold, pow2};
use vstd::prelude::*;
use crate::rfdc::AdcNonIdealities;

verus! {

/// Which imperfections a configuration switches on.
#[derive(Clone, Copy, Debug, PartialEq, Eq, Structural)]
pub struct Impairments {
    /// Second and third harmonic distortion of the analog front end.
    pub hd2: bool,
    pub hd3: bool,
    /// Broadband noise down to the effective number of bits.
    pub noise: bool,
    /// Spurs of the interleaved sub-converters.
    pub spur: bool,
    /// Half the number of quantiser levels, if the converter quantises.
    pub half_levels: Option<i64>,
}

/// Two to the power of the number of bits, halved.
pub open spec fn half_levels(bits: int) -> int
    decreases bits,
{
    if bits <= 1 {
        1
    } else {
        2 * half_levels(bits - 1)
    }
}

/// What a configuration switches on: nothing while disabled; a level in dBc counts only below
/// zero, a resolution only from 1 to 24 bits, and noise only with a positive bit count.
pub open spec fn impairments_of(config: AdcNonIdealities) -> Impairments {
    if config.enabled {
        Impairments {
            hd2: config.hd2_dbc < 0,
            hd3: config.hd3_dbc < 0,
            noise: config.enob > 0,
            spur: config.interleaving_spur_dbc < 0,
            half_levels: if 1 <= config.quantization_bits <= 24 {
                Some(half_levels(config.quantization_bits as int) as i64)
            } else {
                None
            },
        }
    } else {
        Impairments { hd2: false, hd3: false, noise: false, spur: false, half_levels: None }
    }
}

proof fn half_levels_fit(bits: int)
    requires
        1 <= bits <= 24,
    ensures
        1 <= half_levels(bits) <= 0x80_0000,
        bits > 1 ==> half_levels(bits) % 2 == 0,
{
    reveal_with_fuel(half_levels, 25);
}

/// Reads off a configuration which imperfections are in force.
pub fn impairments(config: &AdcNonIdealities) -> (found: Impairments)
    ensures
        found == impairments_of(*config),
{
    if !config.enabled {
        return Impairments { hd2: false, hd3: false, noise: false, spur: false, half_levels: None };
    }
    let levels: Option<i64> = if config.quantization_bits >= 1 && config.quantization_bits <= 24 {
        let mut half: i64 = 1;
        let mut bits: u8 = 1;
        while bits < config.quantization_bits
            invariant
                1 <= bits <= config.quantization_bits <= 24,
                half == half_levels(bits as int),
                1 <= half <= 0x80_0000,
            decreases config.quantization_bits - bits,
        {
            proof {
                half_levels_fit(bits + 1);
            }
            half = 2 * half;
            bits += 1;
        }
        Some(half)
    } else {
        None
    };
    Impairments {
        hd2: config.hd2_dbc < 0,
        hd3: config.hd3_dbc < 0,
        noise: config.enob > 0,
        spur: config.interleaving_spur_dbc < 0,
        half_levels: levels,
    }
}

/// The output code for a rounded sample value: held between the lowest code and the highest,
/// which is one short of the positive half.
pub open spec fn clamped_code(code: int, half: int) -> int {
    if code >= half {
        half - 1
    } else if code < -half {
        -half
    } else {
        code
    }
}

/// Limits a rounded sample value, in quantiser steps, to the codes of the converter.
pub fn clamp_code(code: i64, half: i64) -> (limited: i64)
    requires
        1 <= half,
    ensures
        limited == clamped_code(code as int, half as int),
        -half <= limited < half,
{
    if code >= half {
        half - 1
    } else if code < -half {
        -half
    } else {
        code
    }
}

/// Codes already in range are not changed, larger values never get smaller codes, and limiting
/// twice changes nothing more.
pub proof fn clamping_is_monotone(a: int, b: int, half: int)
    requires
        1 <= half,
        a <= b,
    ensures
        clamped_code(a, half) <= clamped_code(b, half),
        -half <= a < half ==> clamped_code(a, half) == a,
        clamped_code(clamped_code(a, half), half) == clamped_code(a, half),
{
}

/// A code is never moved further than it must be: among the codes of the converter, which run
/// from minus the half count up to one below it, no other is nearer.
pub proof fn clamping_takes_the_nearest_code(code: int, half: int, other: int)
    requires
        half > 0,
        -half <= other < half,
    ensures
        -half <= clamped_code(code, half) < half,
        ({
            let moved = clamped_code(code, half) - code;
            let away = other - code;
            moved * moved <= away * away
        }),
{
    let moved = clamped_code(code, half) - code;
    let away = other - code;
    if code >= half {
        assert(moved * moved <= away * away) by (nonlinear_arith)
            requires
                away <= moved < 0,
        ;
    } else if code < -half {
        assert(moved * moved <= away * away) by (nonlinear_arith)
            requires
                0 < moved <= away,
        ;
    } else {
        assert(moved * moved == 0 && 0 <= away * away) by (nonlinear_arith)
            requires
                moved == 0,
        ;
    }
}

/// A converter of `b` bits has two to the power of `b` quantiser levels, for every depth it
/// quantises at, and one more bit doubles them.
pub proof fn levels_are_powers_of_two(config: AdcNonIdealities, deeper: AdcNonIdealities)
    requires
        config.enabled,
        1 <= config.quantization_bits <= 24,
        deeper.enabled,
        deeper.quantization_bits == config.quantization_bits + 1,
    ensures
        impairments_of(config).half_levels matches Some(half) && 2 * half == pow2(
            config.quantization_bits as nat,
        ),
        deeper.quantization_bits <= 24 ==> (impairments_of(deeper).half_levels matches Some(more)
            && more == 2 * impairments_of(config).half_levels->0),
        deeper.quantization_bits == 25 ==> impairments_of(deeper).half_levels is None,
{
    let bits = config.quantization_bits as int;
    half_levels_fit(bits);
    half_levels_are_half(bits);
    if bits < 24 {
        half_levels_fit(bits + 1);
    }
}

proof fn half_levels_are_half(bits: int)
    requires
        1 <= bits,
    ensures
        2 * half_levels(bits) == pow2(bits as nat),
    decreases bits,
{
    if bits > 1 {
        half_levels_are_half(bits - 1);
        lemma_pow2_unfold(bits as nat);
    } else {
        lemma2_to64();
    }
}

/// Which imperfections are in force follows from the settings one by one: none of them while they
/// are switched off; otherwise a product or a spur exactly where its level is below the carrier,
/// noise where there is a positive number of effective bits, and quantising at a depth of 1 to 24
/// bits. No setting has a say in another.
pub proof fn imperfections_follow_their_own_settings(
    config: AdcNonIdealities,
    other: AdcNonIdealities,
)
    ensures
        !config.enabled ==> ({
            let found = impairments_of(config);
            !found.hd2 && !found.hd3 && !found.noise && !found.spur && found.half_levels is None
        }),
        config.enabled ==> ({
            let found = impairments_of(config);
            &&& found.hd2 <==> config.hd2_dbc < 0
            &&& found.hd3 <==> config.hd3_dbc < 0
            &&& found.noise <==> config.enob > 0
            &&& found.spur <==> config.interleaving_spur_dbc < 0
            &&& found.half_levels is Some <==> 0 < config.quantization_bits < 25
        }),
        config.enabled && other.enabled ==> ({
            let (a, b) = (impairments_of(config), impairments_of(other));
            &&& config.enob == other.enob ==> a.noise == b.noise
            &&& config.quantization_bits == other.quantization_bits ==> a.half_levels
                == b.half_levels
        }),
{
}

/// The signs of the spurs at half and at a quarter of the sample rate, for sample `i`.
pub open spec fn spur_pattern(i: int) -> (int, int) {
    (
        if i % 2 == 0 {
            1
        } else {
            -1
        },
        if i % 4 == 0 || i % 4 == 1 {
            1
        } else {
            -1
        },
    )
}

/// The signs of the spurs at half and at a quarter of the sample rate, for sample `i`.
pub fn spur_signs(i: usize) -> (signs: (i8, i8))
    ensures
        signs.0 == spur_pattern(i as int).0,
        signs.1 == spur_pattern(i as int).1,
{
    let half: i8 = if i % 2 == 0 {
        1
    } else {
        -1
    };
    let quarter: i8 = if i % 4 == 0 || i % 4 == 1 {
        1
    } else {
        -1
    };
    (half, quarter)
}

/// The spur pattern repeats every four samples and sums to zero over them, so it adds no offset.
pub proof fn spur_pattern_is_balanced(i: int)
    requires
        0 <= i,
    ensures
        spur_pattern(i + 4) == spur_pattern(i),
        spur_pattern(i).0 + spur_pattern(i + 1).0 + spur_pattern(i + 2).0 + spur_pattern(i + 3).0
            == 0,
        spur_pattern(i).1 + spur_pattern(i + 1).1 + spur_pattern(i + 2).1 + spur_pattern(i + 3).1
            == 0,
{
}

/// The first spur changes sign with every sample, as half the sample rate does, and starts
/// positive; the second turns over every two samples, as a quarter of it does, and starts with two
/// positive ones. Both are plus or minus one.
pub proof fn spurs_alternate(i: int)
    requires
        0 <= i,
    ensures
        spur_pattern(i + 1).0 == -spur_pattern(i).0,
        spur_pattern(i + 2).1 == -spur_pattern(i).1,
        spur_pattern(2 * i).0 == 1,
        spur_pattern(4 * i).1 == 1,
        spur_pattern(4 * i + 1).1 == 1,
        spur_pattern(i).0 == 1 || spur_pattern(i).0 == -1,
        spur_pattern(i).1 == 1 || spur_pattern(i).1 == -1,
{
    assert((4 * i) % 4 == 0 && (4 * i + 1) % 4 == 1);
}

/// `out` is sample `i` after the imperfections in force, in their order: noise, interleaving
/// spurs, clipping, quantising. `clipped` says whether it ran out of range.
pub open spec fn is_digitised<
    V,
    N: Fn(usize, V) -> V,
    S: Fn(V, (i8, i8)) -> V,
    C: Fn(V) -> (V, bool),
    Q: Fn(V, i64) -> V,
>(
    found: Impairments,
    noise: N,
    spur: S,
    clip: C,
    quantise: Q,
    i: int,
    sample: V,
    out: V,
    clipped: bool,
) -> bool {
    exists|noisy: V, spurred: V, limited: V|
        {
            &&& if found.noise {
                call_ensures(noise, (i as usize, sample), noisy)
            } else {
                noisy == sample
            }
            &&& if found.spur {
                call_ensures(
                    spur,
                    (noisy, (spur_pattern(i).0 as i8, spur_pattern(i).1 as i8)),
                    spurred,
                )
            } else {
                spurred == noisy
            }
            &&& #[trigger] is_clip(clip, noisy, spurred, limited, clipped)
            &&& match found.half_levels {
                Some(half) => call_ensures(quantise, (limited, half), out),
                None => out == limited,
            }
        }
}

/// `clip` may limit `spurred` to `limited`, saying `clipped`.
pub open spec fn is_clip<V, C: Fn(V) -> (V, bool)>(
    clip: C,
    noisy: V,
    spurred: V,
    limited: V,
    clipped: bool,
) -> bool {
    call_ensures(clip, (spurred,), (limited, clipped))
}

/// Each sample of `out` is the one of `samples` after the imperfections in force, and
/// `clipped[i]` says whether sample `i` ran out of range.
pub open spec fn are_digitised<
    V,
    N: Fn(usize, V) -> V,
    S: Fn(V, (i8, i8)) -> V,
    C: Fn(V) -> (V, bool),
    Q: Fn(V, i64) -> V,
>(
    found: Impairments,
    noise: N,
    spur: S,
    clip: C,
    quantise: Q,
    samples: Seq<V>,
    out: Seq<V>,
    clipped: Seq<bool>,
) -> bool {
    &&& out.len() == samples.len()
    &&& clipped.len() == samples.len()
    &&& forall|i: int|
        0 <= i < samples.len() ==> is_digitised(
            found,
            noise,
            spur,
            clip,
            quantise,
            i,
            samples[i],
            out[i],
            #[trigger] clipped[i],
        )
}

/// `out` is the record after the imperfections in force; `overrange` says whether any sample ran
/// out of range.
pub open spec fn is_digital_record<
    V,
    N: Fn(usize, V) -> V,
    S: Fn(V, (i8, i8)) -> V,
    C: Fn(V) -> (V, bool),
    Q: Fn(V, i64) -> V,
>(
    found: Impairments,
    noise: N,
    spur: S,
    clip: C,
    quantise: Q,
    samples: Seq<V>,
    out: Seq<V>,
    overrange: bool,
) -> bool {
    exists|clipped: Seq<bool>|
        {
            &&& #[trigger] are_digitised(found, noise, spur, clip, quantise, samples, out, clipped)
            &&& overrange == exists|i: int| 0 <= i < clipped.len() && #[trigger] clipped[i]
        }
}

/// Each of the four imperfections gives one result for the same values.
pub open spec fn are_single_valued<
    V,
    N: Fn(usize, V) -> V,
    S: Fn(V, (i8, i8)) -> V,
    C: Fn(V) -> (V, bool),
    Q: Fn(V, i64) -> V,
>(noise: N, spur: S, clip: C, quantise: Q) -> bool {
    &&& forall|i: usize, v: V, a: V, b: V|
        #[trigger] call_ensures(noise, (i, v), a) && #[trigger] call_ensures(noise, (i, v), b)
            ==> a == b
    &&& forall|v: V, signs: (i8, i8), a: V, b: V|
        #[trigger] call_ensures(spur, (v, signs), a) && #[trigger] call_ensures(
            spur,
            (v, signs),
            b,
        ) ==> a == b
    &&& forall|v: V, a: (V, bool), b: (V, bool)|
        #[trigger] call_ensures(clip, (v,), a) && #[trigger] call_ensures(clip, (v,), b) ==> a == b
    &&& forall|v: V, half: i64, a: V, b: V|
        #[trigger] call_ensures(quantise, (v, half), a) && #[trigger] call_ensures(
            quantise,
            (v, half),
            b,
        ) ==> a == b
}

/// The start of a record is digitised as it is within the whole record, however the work is
/// split; and digitising a record again gives the same.
pub proof fn prefix_is_digitised_alike<
    V,
    N: Fn(usize, V) -> V,
    S: Fn(V, (i8, i8)) -> V,
    C: Fn(V) -> (V, bool),
    Q: Fn(V, i64) -> V,
>(
    found: Impairments,
    noise: N,
    spur: S,
    clip: C,
    quantise: Q,
    samples: Seq<V>,
    k: int,
    whole: (Seq<V>, bool),
    start: (Seq<V>, bool),
)
    requires
        0 <= k <= samples.len(),
        are_single_valued(noise, spur, clip, quantise),
        is_digital_record(found, noise, spur, clip, quantise, samples, whole.0, whole.1),
        is_digital_record(found, noise, spur, clip, quantise, samples.take(k), start.0, start.1),
    ensures
        start.0 == whole.0.take(k),
        start.1 ==> whole.1,
        k == samples.len() ==> start.1 == whole.1,
{
    let a = choose|clipped: Seq<bool>|
        {
            &&& #[trigger] are_digitised(
                found,
                noise,
                spur,
                clip,
                quantise,
                samples,
                whole.0,
                clipped,
            )
            &&& whole.1 == exists|i: int| 0 <= i < clipped.len() && #[trigger] clipped[i]
        };
    let b = choose|clipped: Seq<bool>|
        {
            &&& #[trigger] are_digitised(
                found,
                noise,
                spur,
                clip,
                quantise,
                samples.take(k),
                start.0,
                clipped,
            )
            &&& start.1 == exists|i: int| 0 <= i < clipped.len() && #[trigger] clipped[i]
        };
    assert forall|i: int| 0 <= i < k implies start.0[i] == whole.0[i] && #[trigger] b[i] == a[i] by {
        assert(samples.take(k)[i] == samples[i]);
        assert(is_digitised(
            found,
            noise,
            spur,
            clip,
            quantise,
            i,
            samples[i],
            whole.0[i],
            a[i],
        ));
        assert(is_digitised(
            found,
            noise,
            spur,
            clip,
            quantise,
            i,
            samples[i],
            start.0[i],
            b[i],
        ));
    }
    assert forall|i: int| 0 <= i < k implies start.0[i] == #[trigger] whole.0.take(k)[i] by {
        assert(b[i] == a[i]);
    }
    assert(start.0 =~= whole.0.take(k));
    if start.1 {
        let i = choose|i: int| 0 <= i < b.len() && #[trigger] b[i];
        assert(a[i]);
    }
    if k == samples.len() {
        assert(a =~= b);
    }
}

/// Applies the converter's digital imperfections to sampled values, each by a closure: `noise`
/// adds the noise of sample `i`, `spur` the interleaving spurs with the given signs, `clip`
/// limits to full scale, `quantise` rounds to the codes. Also says whether anything clipped.
pub fn apply_digital_non_idealities<
    V: Copy,
    N: Fn(usize, V) -> V,
    S: Fn(V, (i8, i8)) -> V,
    C: Fn(V) -> (V, bool),
    Q: Fn(V, i64) -> V,
>(samples: &Vec<V>, found: &Impairments, noise: &N, spur: &S, clip: &C, quantise: &Q) -> (result: (
    Vec<V>,
    bool,
))
    requires
        forall|i: usize, v: V| #[trigger] call_requires(*noise, (i, v)),
        forall|v: V, signs: (i8, i8)| #[trigger] call_requires(*spur, (v, signs)),
        forall|v: V| #[trigger] call_requires(*clip, (v,)),
        forall|v: V, half: i64| #[trigger] call_requires(*quantise, (v, half)),
    ensures
        is_digital_record(
            *found,
            *noise,
            *spur,
            *clip,
            *quantise,
            samples@,
            result.0@,
            result.1,
        ),
{
    let mut out: Vec<V> = Vec::new();
    let mut overrange: bool = false;
    let ghost mut clipped: Seq<bool> = Seq::empty();
    let mut i: usize = 0;
    while i < samples.len()
        invariant
            forall|i: usize, v: V| #[trigger] call_requires(*noise, (i, v)),
            forall|v: V, signs: (i8, i8)| #[trigger] call_requires(*spur, (v, signs)),
            forall|v: V| #[trigger] call_requires(*clip, (v,)),
            forall|v: V, half: i64| #[trigger] call_requires(*quantise, (v, half)),
            i <= samples.len(),
            out.len() == i,
            clipped.len() == i,
            forall|j: int|
                0 <= j < i ==> is_digitised(
                    *found,
                    *noise,
                    *spur,
                    *clip,
                    *quantise,
                    j,
                    samples[j],
                    out[j],
                    #[trigger] clipped[j],
                ),
            overrange == exists|j: int| 0 <= j < clipped.len() && #[trigger] clipped[j],
        decreases samples.len() - i,
    {
        let sample: V = samples[i];
        let noisy: V = if found.noise {
            noise(i, sample)
        } else {
            sample
        };
        let spurred: V = if found.spur {
            spur(noisy, spur_signs(i))
        } else {
            noisy
        };
        let (limited, over) = clip(spurred);
        let value: V = match found.half_levels {
            Some(half) => quantise(limited, half),
            None => limited,
        };
        out.push(value);
        proof {
            assert(is_clip(*clip, noisy, spurred, limited, over));
            assert(is_digitised(
                *found,
                *noise,
                *spur,
                *clip,
                *quantise,
                i as int,
                sample,
                value,
                over,
            ));
            let before = clipped;
            clipped = clipped.push(over);
            if overrange {
                let j = choose|j: int| 0 <= j < before.len() && #[trigger] before[j];
                assert(clipped[j]);
            }
            if over {
                assert(clipped[i as int]);
            }
            if exists|j: int| 0 <= j < clipped.len() && #[trigger] clipped[j] {
                let j = choose|j: int| 0 <= j < clipped.len() && #[trigger] clipped[j];
                if j < i {
                    assert(before[j]);
                }
            }
        }
        overrange = overrange || over;
        i += 1;
    }
    assert(are_digitised(*found, *noise, *spur, *clip, *quantise, samples@, out@, clipped));
    (out, overrange)
}

} // verus!
