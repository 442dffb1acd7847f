//! What the laws of generated samples become when every addition rounds.

use vstd::prelude::*;
use crate::clock::SampleClock;
use crate::signal::{
    are_parts, are_sums, instant_of, is_mix, is_sample_of, is_single_valued, Instant,
    SignalGenerator, Tone, ToneRecipe,
};

verus! {

/// The distance between two numbers.
pub open spec fn distance(a: int, b: int) -> int {
    if a >= b {
        a - b
    } else {
        b - a
    }
}

/// Adding two voltages no larger than `bound` is off by at most `slack`. `size` is the voltage in
/// units so fine that every one is a whole number of them.
pub open spec fn adds_within<V, A: Fn(V, V) -> V>(
    plus: A,
    size: spec_fn(V) -> int,
    bound: int,
    slack: int,
) -> bool {
    forall|a: V, b: V, c: V| #[trigger]
        call_ensures(plus, (a, b), c) && distance(size(a), 0) <= bound && distance(size(b), 0)
            <= bound ==> distance(size(c), size(a) + size(b)) <= slack
}

/// The sizes of the parts, added up exactly.
pub open spec fn sum_of_sizes<V>(size: spec_fn(V) -> int, parts: Seq<V>) -> int
    decreases parts.len(),
{
    if parts.len() == 0 {
        0
    } else {
        sum_of_sizes(size, parts.drop_last()) + size(parts.last())
    }
}

proof fn sizes_of_both<V>(size: spec_fn(V) -> int, left: Seq<V>, right: Seq<V>)
    ensures
        sum_of_sizes(size, left + right) == sum_of_sizes(size, left) + sum_of_sizes(size, right),
    decreases right.len(),
{
    if right.len() == 0 {
        assert(left + right =~= left);
    } else {
        sizes_of_both(size, left, right.drop_last());
        assert((left + right).drop_last() =~= left + right.drop_last());
        assert((left + right).last() == right.last());
    }
}

/// Sums of parts no larger than `peak` stray from the exact sum by `slack` with each addition.
proof fn sums_stray_slowly<V, A: Fn(V, V) -> V>(
    plus: A,
    size: spec_fn(V) -> int,
    zero: V,
    parts: Seq<V>,
    sums: Seq<V>,
    peak: int,
    bound: int,
    slack: int,
    n: int,
)
    requires
        are_sums(plus, zero, parts, sums),
        adds_within(plus, size, bound, slack),
        size(zero) == 0,
        0 <= peak <= bound,
        0 <= slack,
        forall|k: int| 0 <= k < parts.len() ==> distance(size(#[trigger] parts[k]), 0) <= peak,
        0 <= n <= parts.len(),
        parts.len() * (peak + slack) <= bound,
    ensures
        distance(size(sums[n]), sum_of_sizes(size, parts.take(n))) <= n * slack,
        distance(size(sums[n]), 0) <= n * (peak + slack),
    decreases n,
{
    if n > 0 {
        let m = n - 1;
        let each = peak + slack;
        sums_stray_slowly(plus, size, zero, parts, sums, peak, bound, slack, m);
        assert(parts.take(n).drop_last() =~= parts.take(m));
        assert(parts.take(n).last() == parts[m]);
        assert(m * each <= parts.len() * each) by (nonlinear_arith)
            requires
                m <= parts.len(),
                0 <= each,
        ;
        assert(call_ensures(plus, (sums[m], parts[m]), sums[m + 1]));
        assert(n * slack == m * slack + slack && n * each == m * each + each) by (nonlinear_arith)
            requires
                n == m + 1,
        ;
    } else {
        assert(parts.take(0) =~= Seq::empty());
        assert(0 * slack == 0 && 0 * (peak + slack) == 0);
    }
}

proof fn mix_strays_slowly<V, S: Fn(&Tone, ToneRecipe, Instant) -> V, A: Fn(V, V) -> V>(
    sample: S,
    plus: A,
    size: spec_fn(V) -> int,
    zero: V,
    tones: Seq<Tone>,
    clock: SampleClock,
    i: int,
    value: V,
    peak: int,
    bound: int,
    slack: int,
) -> (parts: Seq<V>)
    requires
        is_mix(sample, plus, zero, tones, clock, i, value),
        adds_within(plus, size, bound, slack),
        size(zero) == 0,
        0 <= peak <= bound,
        0 <= slack,
        forall|tone: &Tone, recipe: ToneRecipe, instant: Instant, v: V| #[trigger]
            call_ensures(sample, (tone, recipe, instant), v) ==> distance(size(v), 0) <= peak,
        tones.len() * (peak + slack) <= bound,
    ensures
        are_parts(sample, tones, clock, i, parts),
        parts.len() == tones.len(),
        distance(size(value), sum_of_sizes(size, parts)) <= tones.len() * slack,
{
    let (parts, sums) = choose|parts: Seq<V>, sums: Seq<V>|
        {
            &&& #[trigger] are_parts(sample, tones, clock, i, parts)
            &&& #[trigger] are_sums(plus, zero, parts, sums)
            &&& parts.len() == tones.len()
            &&& sums.last() == value
        };
    sums_stray_slowly(
        plus,
        size,
        zero,
        parts,
        sums,
        peak,
        bound,
        slack,
        parts.len() as int,
    );
    assert(parts.take(parts.len() as int) =~= parts);
    parts
}

/// Tones add independently up to rounding: if no tone exceeds `peak` and an addition is off by
/// at most `slack` over the range the sums stay in, then, without the noise floor, each sample of
/// two lists of tones together is within two roundings per tone of the sum of the samples of the
/// two lists.
pub proof fn tones_add_up_to_rounding<
    V,
    S: Fn(&Tone, ToneRecipe, Instant) -> V,
    A: Fn(V, V) -> V,
    N: Fn(V, usize) -> V,
>(
    left: SignalGenerator,
    right: SignalGenerator,
    both: SignalGenerator,
    clock: SampleClock,
    i: int,
    zero: V,
    sample: S,
    plus: A,
    noise: N,
    size: spec_fn(V) -> int,
    peak: int,
    bound: int,
    slack: int,
    of_left: V,
    of_right: V,
    of_both: V,
)
    requires
        both.tones@ == left.tones@ + right.tones@,
        !left.noise_enabled && !right.noise_enabled && !both.noise_enabled,
        is_single_valued(sample),
        adds_within(plus, size, bound, slack),
        size(zero) == 0,
        0 <= peak <= bound,
        0 <= slack,
        forall|tone: &Tone, recipe: ToneRecipe, instant: Instant, v: V| #[trigger]
            call_ensures(sample, (tone, recipe, instant), v) ==> distance(size(v), 0) <= peak,
        both.tones.len() * (peak + slack) <= bound,
        is_sample_of(left, clock, i, zero, sample, plus, noise, of_left),
        is_sample_of(right, clock, i, zero, sample, plus, noise, of_right),
        is_sample_of(both, clock, i, zero, sample, plus, noise, of_both),
    ensures
        distance(size(of_both), size(of_left) + size(of_right)) <= 2 * both.tones.len() * slack,
{
    let (n, l, r) = (both.tones.len() as int, left.tones.len() as int, right.tones.len() as int);
    let each = peak + slack;
    assert(both.tones@.len() == left.tones@.len() + right.tones@.len());
    assert(l * each <= n * each && r * each <= n * each) by (nonlinear_arith)
        requires
            0 <= l <= n,
            0 <= r <= n,
            0 <= each,
    ;
    let a = mix_strays_slowly(
        sample, plus, size, zero, left.tones@, clock, i, of_left, peak, bound, slack,
    );
    let b = mix_strays_slowly(
        sample, plus, size, zero, right.tones@, clock, i, of_right, peak, bound, slack,
    );
    let c = mix_strays_slowly(
        sample, plus, size, zero, both.tones@, clock, i, of_both, peak, bound, slack,
    );
    let rate = clock.sample_rate_mhz as int;
    assert forall|k: int| 0 <= k < c.len() implies c[k] == (a + b)[k] by {
        let tone = both.tones@[k];
        assert(call_ensures(
            sample,
            (&tone, tone.recipe_at(rate), instant_of(tone, clock, i)),
            c[k],
        ));
        if k < a.len() {
            assert(tone == left.tones@[k]);
            assert(call_ensures(
                sample,
                (&tone, tone.recipe_at(rate), instant_of(tone, clock, i)),
                a[k],
            ));
        } else {
            let j = k - a.len();
            assert(tone == right.tones@[j]);
            assert(call_ensures(
                sample,
                (&tone, tone.recipe_at(rate), instant_of(tone, clock, i)),
                b[j],
            ));
        }
    }
    assert(c =~= a + b);
    sizes_of_both(size, a, b);
    assert(n * slack == l * slack + r * slack) by (nonlinear_arith)
        requires
            n == l + r,
    ;
    assert(2 * n * slack == n * slack + n * slack) by (nonlinear_arith);
}

} // verus!
