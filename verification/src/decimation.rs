//! The decimation cascade of the down-converter.
//!
//! Taps and samples are of any type: a stage is given its filter design and its
//! multiply-accumulate as closures, and is accountable for which samples meet which taps.

use vstd::arithmetic::div_mod::*;
use vstd::prelude::*;
use crate::smooth::{exponent, power, stripped};
use crate::spectrum::{tile_samples_needed, SpectrumDetail};

verus! {

// ---------------------------------------------------------------------------
// Stage factors
// ---------------------------------------------------------------------------

/// `n` copies of a factor.
pub open spec fn repeated(factor: usize, n: nat) -> Seq<usize> {
    Seq::new(n, |i: int| factor)
}

/// What is left of a factor once its 2s, 3s, 5s and 7s are taken out.
pub open spec fn odd_rest(factor: nat) -> nat {
    stripped(stripped(stripped(stripped(factor, 2), 3), 5), 7)
}

/// The per-stage factors of the cascade: the halvings first, then the 3s, the 5s, the 7s, and
/// whatever is left in one last stage.
pub open spec fn stage_factors(factor: nat) -> Seq<usize> {
    let a = stripped(factor, 2);
    let b = stripped(a, 3);
    let c = stripped(b, 5);
    let stages = repeated(2, exponent(factor, 2)) + repeated(3, exponent(a, 3)) + repeated(
        5,
        exponent(b, 5),
    ) + repeated(7, exponent(c, 7));
    if odd_rest(factor) > 1 {
        stages.push(odd_rest(factor) as usize)
    } else {
        stages
    }
}

/// The product of the factors.
pub open spec fn product_of(factors: Seq<usize>) -> nat
    decreases factors.len(),
{
    if factors.len() == 0 {
        1
    } else {
        product_of(factors.drop_last()) * factors.last() as nat
    }
}

fn take_out(stages: &mut Vec<usize>, value: u32, p: u32) -> (rest: u32)
    requires
        value > 0,
        p > 1,
    ensures
        rest == stripped(value as nat, p as nat),
        0 < rest <= value,
        final(stages)@ == old(stages)@ + repeated(
            p as usize,
            exponent(value as nat, p as nat),
        ),
{
    let mut rest: u32 = value;
    let ghost mut taken: nat = 0;
    assert(stages@ =~= stages@ + repeated(p as usize, 0));
    while rest % p == 0
        invariant
            p > 1,
            0 < rest <= value,
            stripped(rest as nat, p as nat) == stripped(value as nat, p as nat),
            taken + exponent(rest as nat, p as nat) == exponent(value as nat, p as nat),
            stages@ == old(stages)@ + repeated(p as usize, taken),
        decreases rest,
    {
        proof {
            lemma_div_decreases(rest as int, p as int);
            lemma_fundamental_div_mod(rest as int, p as int);
            assert(rest as int / p as int > 0) by (nonlinear_arith)
                requires
                    rest == p * (rest as int / p as int),
                    rest > 0,
                    p > 1,
            ;
        }
        let ghost before = stages@;
        stages.push(p as usize);
        rest = rest / p;
        proof {
            taken = taken + 1;
            assert(stages@ =~= old(stages)@ + repeated(p as usize, taken));
        }
    }
    rest
}

/// Splits a decimation factor into the per-stage factors of the cascade. The halvings run
/// first, at the highest rates, where their transition band is widest and cheapest.
pub fn decimation_stage_factors(factor: u32) -> (stages: Vec<usize>)
    requires
        factor > 0,
    ensures
        stages@ == stage_factors(factor as nat),
{
    let mut stages: Vec<usize> = Vec::new();
    let a: u32 = take_out(&mut stages, factor, 2);
    let b: u32 = take_out(&mut stages, a, 3);
    let c: u32 = take_out(&mut stages, b, 5);
    let d: u32 = take_out(&mut stages, c, 7);
    assert(stages@ =~= repeated(2, exponent(factor as nat, 2)) + repeated(
        3,
        exponent(a as nat, 3),
    ) + repeated(5, exponent(b as nat, 5)) + repeated(7, exponent(c as nat, 7)));
    if d > 1 {
        stages.push(d as usize);
    }
    stages
}

proof fn product_of_concat(a: Seq<usize>, b: Seq<usize>)
    ensures
        product_of(a + b) == product_of(a) * product_of(b),
    decreases b.len(),
{
    let x = product_of(a);
    if b.len() == 0 {
        assert(a + b =~= a);
        assert(x * 1 == x);
    } else {
        assert((a + b).drop_last() =~= a + b.drop_last());
        product_of_concat(a, b.drop_last());
        let y = product_of(b.drop_last());
        let z = b.last() as nat;
        assert(x * y * z == x * (y * z)) by (nonlinear_arith);
    }
}

proof fn product_of_repeated(p: usize, n: nat)
    ensures
        product_of(repeated(p, n)) == power(p as nat, n),
    decreases n,
{
    if n > 0 {
        assert(repeated(p, n).drop_last() =~= repeated(p, (n - 1) as nat));
        product_of_repeated(p, (n - 1) as nat);
        let x = power(p as nat, (n - 1) as nat);
        assert(x * p == p * x) by (nonlinear_arith);
    }
}

/// The stages of the cascade multiply up to the whole factor.
pub proof fn stages_multiply_to_factor(factor: nat)
    requires
        0 < factor <= u32::MAX,
    ensures
        product_of(stage_factors(factor)) == factor,
{
    let a = stripped(factor, 2);
    let b = stripped(a, 3);
    let c = stripped(b, 5);
    let d = stripped(c, 7);
    crate::smooth::strip_factors(factor, 2);
    crate::smooth::strip_factors(a, 3);
    crate::smooth::strip_factors(b, 5);
    crate::smooth::strip_factors(c, 7);
    let s2 = repeated(2, exponent(factor, 2));
    let s3 = repeated(3, exponent(a, 3));
    let s5 = repeated(5, exponent(b, 5));
    let s7 = repeated(7, exponent(c, 7));
    product_of_repeated(2, exponent(factor, 2));
    product_of_repeated(3, exponent(a, 3));
    product_of_repeated(5, exponent(b, 5));
    product_of_repeated(7, exponent(c, 7));
    product_of_concat(s2, s3);
    product_of_concat(s2 + s3, s5);
    product_of_concat(s2 + s3 + s5, s7);
    let stages = s2 + s3 + s5 + s7;
    let (w, x, y, z) = (
        power(2, exponent(factor, 2)),
        power(3, exponent(a, 3)),
        power(5, exponent(b, 5)),
        power(7, exponent(c, 7)),
    );
    assert(product_of(stages) == w * x * y * z);
    assert(w * (x * (y * (z * d))) == w * x * y * z * d) by (nonlinear_arith);
    crate::smooth::exponent_is_small(factor, 2);
    crate::smooth::exponent_is_small(a, 3);
    crate::smooth::exponent_is_small(b, 5);
    crate::smooth::exponent_is_small(c, 7);
    assert(0 < d <= u32::MAX);
    if d > 1 {
        assert(stages.push(d as usize).drop_last() =~= stages);
    } else {
        let v = w * x * y * z;
        assert(v * d == v) by (nonlinear_arith)
            requires
                d == 1,
        ;
    }
}

/// Once a stage does not halve, no later stage does.
pub proof fn halvings_come_first(factor: nat, i: int, j: int)
    requires
        0 < factor <= u32::MAX,
        0 <= i < j < stage_factors(factor).len(),
        stage_factors(factor)[j] == 2,
    ensures
        stage_factors(factor)[i] == 2,
{
    let a = stripped(factor, 2);
    crate::smooth::stripped_is_not_divisible(factor, 2);
    crate::smooth::exponent_is_small(factor, 2);
    let b = stripped(a, 3);
    let c = stripped(b, 5);
    let d = stripped(c, 7);
    if odd_rest(factor) == 2 {
        // The rest divides the odd part of the factor, so it cannot be 2.
        crate::smooth::strip_factors(a, 3);
        crate::smooth::strip_factors(b, 5);
        crate::smooth::strip_factors(c, 7);
        let (x, y, z) = (
            power(3, exponent(a, 3)),
            power(5, exponent(b, 5)),
            power(7, exponent(c, 7)),
        );
        assert(a == 2 * (x * (y * z))) by (nonlinear_arith)
            requires
                a == x * b,
                b == y * c,
                c == z * d,
                d == 2,
        ;
        assert(a % 2 == 0);
    }
    crate::smooth::exponent_is_small(a, 3);
    crate::smooth::exponent_is_small(b, 5);
    crate::smooth::exponent_is_small(c, 7);
    let s2 = repeated(2, exponent(factor, 2));
    let s3 = repeated(3, exponent(a, 3));
    let s5 = repeated(5, exponent(b, 5));
    let s7 = repeated(7, exponent(c, 7));
    let stages = s2 + s3 + s5 + s7;
    if j < stages.len() {
        assert(stage_factors(factor)[j] == stages[j]);
        assert(stages[j] == 2 ==> j < s2.len());
    }
    assert(stages[i] == s2[i]);
}

// ---------------------------------------------------------------------------
// Filter length and settling
// ---------------------------------------------------------------------------

/// A filter length brought into its bounds and made odd, so that the group delay is a whole
/// number of samples.
pub fn odd_tap_count(wanted: usize) -> (taps: usize)
    ensures
        taps % 2 == 1,
        3 <= taps <= 2049,
        3 <= wanted <= 2049 && wanted % 2 == 1 ==> taps == wanted,
        3 <= wanted <= 2049 && wanted % 2 == 0 ==> taps == wanted + 1,
        wanted < 3 ==> taps == 3,
        wanted > 2049 ==> taps == 2049,
{
    let clamped: usize = if wanted < 3 {
        3
    } else if wanted > 2049 {
        2049
    } else {
        wanted
    };
    if clamped % 2 == 0 {
        clamped + 1
    } else {
        clamped
    }
}

/// Smallest whole number not below `a / b`.
pub open spec fn ceil_div(a: int, b: int) -> int {
    (a + b - 1) / b
}

/// Output samples of the first `n` stages that are not yet settled: each stage adds half its
/// filter to what it inherits, and its output counts in its own, slower samples.
pub open spec fn warmup(half_lengths: Seq<int>, factors: Seq<int>, n: int) -> int
    decreases n,
{
    if n <= 0 {
        0
    } else {
        ceil_div(warmup(half_lengths, factors, n - 1) + half_lengths[n - 1], factors[n - 1])
    }
}

/// One decimate-by-`factor` stage of the chain.
pub struct DecimationStage<C> {
    pub taps: Vec<C>,
    pub factor: usize,
    /// By how much the stages before this one have already reduced the rate.
    pub prior: usize,
}

/// The full cascade for one decimation factor.
pub struct DecimationChain<C> {
    pub stages: Vec<DecimationStage<C>>,
    /// Output samples to discard so only fully settled samples are returned.
    pub warmup_out_samples: usize,
}

impl<C> DecimationChain<C> {
    pub open spec fn half_lengths(&self) -> Seq<int> {
        Seq::new(self.stages.len() as nat, |i: int| self.stages[i].taps.len() as int / 2)
    }

    pub open spec fn factors(&self) -> Seq<int> {
        Seq::new(self.stages.len() as nat, |i: int| self.stages[i].factor as int)
    }

    /// Every stage reduces the rate, and the discard is the cascade's settling time.
    pub open spec fn wf(&self) -> bool {
        &&& forall|i: int| 0 <= i < self.stages.len() ==> (#[trigger] self.stages[i]).factor >= 1
        &&& self.warmup_out_samples == warmup(
            self.half_lengths(),
            self.factors(),
            self.stages.len() as int,
        )
    }

    /// The stages are those of the cascade for a factor.
    pub open spec fn serves(&self, factor: nat) -> bool {
        &&& self.stages.len() == stage_factors(factor).len()
        &&& forall|k: int|
            0 <= k < self.stages.len() ==> (#[trigger] self.stages[k]).factor
                == stage_factors(factor)[k]
    }
}

/// Longest filter a design may return; keeps the settling time representable.
pub const MAX_TAPS: usize = 1_000_000;

/// Product of the stage factors before stage `k`.
pub open spec fn prior_of(factors: Seq<usize>, k: int) -> nat {
    product_of(factors.take(k))
}

proof fn warmup_is_bounded(half_lengths: Seq<int>, factors: Seq<int>, n: int, bound: int)
    requires
        0 <= n <= half_lengths.len(),
        half_lengths.len() == factors.len(),
        forall|i: int| 0 <= i < n ==> 0 <= #[trigger] half_lengths[i] <= bound,
        forall|i: int| 0 <= i < n ==> #[trigger] factors[i] >= 1,
    ensures
        0 <= warmup(half_lengths, factors, n) <= n * bound,
    decreases n,
{
    if n > 0 {
        warmup_is_bounded(half_lengths, factors, n - 1, bound);
        let w = warmup(half_lengths, factors, n - 1);
        let h = half_lengths[n - 1];
        let m = factors[n - 1];
        let x = w + h;
        lemma_fundamental_div_mod(x + m - 1, m);
        lemma_mod_bound(x + m - 1, m);
        let q = (x + m - 1) / m;
        assert((n - 1) * bound + bound == n * bound) by (nonlinear_arith);
        assert(0 <= q <= x) by (nonlinear_arith)
            requires
                x + m - 1 == m * q + (x + m - 1) % m,
                0 <= (x + m - 1) % m < m,
                m >= 1,
                x >= 0,
        ;
    } else {
        assert(n * bound == 0) by (nonlinear_arith)
            requires
                n == 0,
        ;
    }
}

proof fn warmup_depends_on_prefix(a: Seq<int>, b: Seq<int>, c: Seq<int>, d: Seq<int>, n: int)
    requires
        0 <= n <= a.len(),
        n <= b.len(),
        n <= c.len(),
        n <= d.len(),
        forall|i: int| 0 <= i < n ==> a[i] == b[i] && c[i] == d[i],
    ensures
        warmup(a, c, n) == warmup(b, d, n),
    decreases n,
{
    if n > 0 {
        warmup_depends_on_prefix(a, b, c, d, n - 1);
    }
}

proof fn factors_are_few(factor: nat)
    requires
        0 < factor <= u32::MAX,
    ensures
        stage_factors(factor).len() <= 33,
        forall|k: int|
            0 <= k <= stage_factors(factor).len() ==> 1 <= #[trigger] prior_of(
                stage_factors(factor),
                k,
            ) <= factor,
        forall|k: int|
            0 <= k < stage_factors(factor).len() ==> 2 <= #[trigger] stage_factors(factor)[k]
                <= factor,
{
    let stages = stage_factors(factor);
    let a = stripped(factor, 2);
    let b = stripped(a, 3);
    let c = stripped(b, 5);
    let d = stripped(c, 7);
    crate::smooth::exponent_is_small(factor, 2);
    crate::smooth::exponent_is_small(a, 3);
    crate::smooth::exponent_is_small(b, 5);
    crate::smooth::exponent_is_small(c, 7);
    stages_multiply_to_factor(factor);
    assert forall|k: int| 0 <= k < stages.len() implies 2 <= #[trigger] stages[k] by {
        let s2 = repeated(2, exponent(factor, 2));
        let s3 = repeated(3, exponent(a, 3));
        let s5 = repeated(5, exponent(b, 5));
        let s7 = repeated(7, exponent(c, 7));
        let base = s2 + s3 + s5 + s7;
        if k < base.len() {
            assert(stages[k] == base[k]);
        }
    }
    assert forall|k: int| 0 <= k <= stages.len() implies 1 <= #[trigger] prior_of(stages, k)
        <= factor by {
        prefix_divides(stages, k);
        assert(stages.take(stages.len() as int) =~= stages);
    }
    assert forall|k: int| 0 <= k < stages.len() implies #[trigger] stages[k] <= factor by {
        prefix_divides(stages, k + 1);
        assert(stages.take(stages.len() as int) =~= stages);
        assert(stages.take(k + 1).drop_last() =~= stages.take(k));
        prefix_divides(stages, k);
        let p = product_of(stages.take(k));
        let v = stages[k] as nat;
        assert(v <= p * v) by (nonlinear_arith)
            requires
                p >= 1,
                v >= 0,
        ;
    }
    long_product_is_large(stages);
    if stages.len() > 33 {
        crate::smooth::power_grows(2, 33, stages.len());
        assert(power(2, 33) == 0x2_0000_0000) by {
            reveal_with_fuel(power, 34);
        }
    }
}

proof fn prefix_divides(factors: Seq<usize>, k: int)
    requires
        0 <= k <= factors.len(),
        forall|i: int| 0 <= i < factors.len() ==> 2 <= #[trigger] factors[i],
    ensures
        1 <= product_of(factors.take(k)) <= product_of(factors),
    decreases factors.len(),
{
    if k == factors.len() {
        assert(factors.take(k) =~= factors);
        if k > 0 {
            prefix_divides(factors.drop_last(), k - 1);
            assert(factors.drop_last().take(k - 1) =~= factors.drop_last());
            let p = product_of(factors.drop_last());
            let v = factors.last() as nat;
            assert(p * v >= 1) by (nonlinear_arith)
                requires
                    p >= 1,
                    v >= 2,
            ;
        }
    } else {
        prefix_divides(factors.drop_last(), k);
        assert(factors.drop_last().take(k) =~= factors.take(k));
        let p = product_of(factors.drop_last());
        let v = factors.last() as nat;
        assert(p <= p * v) by (nonlinear_arith)
            requires
                p >= 1,
                v >= 2,
        ;
    }
}

proof fn long_product_is_large(factors: Seq<usize>)
    requires
        forall|i: int| 0 <= i < factors.len() ==> 2 <= #[trigger] factors[i],
    ensures
        product_of(factors) >= power(2, factors.len()),
    decreases factors.len(),
{
    if factors.len() > 0 {
        long_product_is_large(factors.drop_last());
        let p = product_of(factors.drop_last());
        let q = power(2, (factors.len() - 1) as nat);
        let v = factors.last() as nat;
        assert(p * v >= 2 * q) by (nonlinear_arith)
            requires
                p >= q,
                v >= 2,
                q >= 0,
        ;
    }
}

/// Builds the decimation cascade for `factor`. `design` is given the rate reduction before a
/// stage, the stage's own factor and the whole factor, and returns the stage's filter.
pub fn build_decimation_chain<C, D: Fn(usize, usize, u32) -> Vec<C>>(factor: u32, design: D) -> (chain:
    DecimationChain<C>)
    requires
        factor > 0,
        forall|prior: usize, m: usize| #[trigger] call_requires(design, (prior, m, factor)),
        forall|prior: usize, m: usize, taps: Vec<C>| #[trigger]
            call_ensures(design, (prior, m, factor), taps) ==> taps.len() <= MAX_TAPS,
    ensures
        chain.wf(),
        chain.serves(factor as nat),
        forall|k: int|
            0 <= k < chain.stages.len() ==> {
                &&& (#[trigger] chain.stages[k]).prior == prior_of(stage_factors(factor as nat), k)
                &&& call_ensures(
                    design,
                    (chain.stages[k].prior, chain.stages[k].factor, factor),
                    chain.stages[k].taps,
                )
            },
{
    let factors: Vec<usize> = decimation_stage_factors(factor);
    let ghost specs = stage_factors(factor as nat);
    proof {
        factors_are_few(factor as nat);
        assert(specs.take(0) =~= Seq::empty());
    }
    let mut stages: Vec<DecimationStage<C>> = Vec::new();
    let mut prior: usize = 1;
    let mut unsettled: usize = 0;
    let mut k: usize = 0;
    let ghost mut halves: Seq<int> = Seq::empty();
    let ghost mut rates: Seq<int> = Seq::empty();
    while k < factors.len()
        invariant
            factor > 0,
            specs == stage_factors(factor as nat),
            factors@ == specs,
            specs.len() <= 33,
            k <= factors.len(),
            forall|j: int| 0 <= j <= specs.len() ==> 1 <= #[trigger] prior_of(specs, j) <= factor,
            forall|j: int| 0 <= j < specs.len() ==> 2 <= #[trigger] specs[j] <= factor,
            forall|p: usize, m: usize| #[trigger] call_requires(design, (p, m, factor)),
            forall|p: usize, m: usize, taps: Vec<C>| #[trigger]
                call_ensures(design, (p, m, factor), taps) ==> taps.len() <= MAX_TAPS,
            prior == prior_of(specs, k as int),
            stages.len() == k,
            halves.len() == k,
            rates.len() == k,
            forall|j: int|
                0 <= j < k ==> {
                    &&& (#[trigger] stages[j]).factor == specs[j]
                    &&& stages[j].prior == prior_of(specs, j)
                    &&& call_ensures(
                        design,
                        (stages[j].prior, stages[j].factor, factor),
                        stages[j].taps,
                    )
                    &&& halves[j] == stages[j].taps.len() as int / 2
                    &&& rates[j] == specs[j]
                },
            unsettled == warmup(halves, rates, k as int),
        decreases factors.len() - k,
    {
        let m: usize = factors[k];
        assert(2 <= specs[k as int] <= factor);
        let taps: Vec<C> = design(prior, m, factor);
        assert(taps.len() <= MAX_TAPS);
        proof {
            assert forall|i: int| 0 <= i < k implies 0 <= #[trigger] halves[i] <= 500_000 by {
                assert(call_ensures(
                    design,
                    (stages[i].prior, stages[i].factor, factor),
                    stages[i].taps,
                ));
            }
            assert forall|i: int| 0 <= i < k implies #[trigger] rates[i] >= 1 by {
                assert(stages[i].factor == specs[i]);
                assert(specs[i] >= 2);
            }
            warmup_is_bounded(halves, rates, k as int, 500_000);
            assert(k * 500_000 <= 33 * 500_000);
        }
        let ghost old_halves = halves;
        let ghost old_rates = rates;
        proof {
            halves = halves.push(taps.len() as int / 2);
            rates = rates.push(m as int);
            warmup_depends_on_prefix(old_halves, halves, old_rates, rates, k as int);
        }
        assert(m <= u32::MAX);
        unsettled = settle(unsettled, taps.len(), m);
        stages.push(DecimationStage { taps, factor: m, prior });
        proof {
            assert(specs.take(k + 1).drop_last() =~= specs.take(k as int));
            assert(specs.take(k + 1).last() == m);
            assert(prior_of(specs, k + 1) == prior * m);
        }
        prior = prior * m;
        k += 1;
    }
    let chain = DecimationChain { stages, warmup_out_samples: unsettled };
    proof {
        assert(chain.half_lengths() =~= halves);
        assert(chain.factors() =~= rates);
        assert forall|i: int| 0 <= i < chain.stages.len() implies (
        #[trigger] chain.stages[i]).factor >= 1 by {
            assert(chain.stages[i].factor == specs[i]);
        }
    }
    chain
}

/// Output samples of a stage that are not yet settled.
fn settle(half_before: usize, taps: usize, factor: usize) -> (out: usize)
    requires
        factor >= 1,
        half_before <= 100_000_000,
        taps <= MAX_TAPS,
    ensures
        out == ceil_div(half_before + taps as int / 2, factor as int),
{
    let x: usize = half_before + taps / 2;
    let q: usize = x / factor;
    let r: usize = x % factor;
    proof {
        let (a, m) = (x as int, factor as int);
        lemma_fundamental_div_mod(a, m);
        lemma_mod_bound(a, m);
        if r == 0 {
            assert(a + m - 1 == (q as int) * m + (m - 1)) by (nonlinear_arith)
                requires
                    a == m * (q as int),
            ;
            lemma_fundamental_div_mod_converse(a + m - 1, m, q as int, m - 1);
        } else {
            assert(a + m - 1 == (q as int + 1) * m + (r - 1)) by (nonlinear_arith)
                requires
                    a == m * (q as int) + r,
            ;
            lemma_fundamental_div_mod_converse(a + m - 1, m, q as int + 1, r - 1);
        }
    }
    if r == 0 {
        q
    } else {
        q + 1
    }
}

// ---------------------------------------------------------------------------
// Running a stage
// ---------------------------------------------------------------------------

/// The samples and taps that make up one output: `count` of each, from `first_sample` and
/// `first_tap` on.
#[derive(Clone, Copy, Debug, PartialEq, Eq, Structural)]
pub struct TapWindow {
    pub first_sample: usize,
    pub first_tap: usize,
    pub count: usize,
}

/// The window of a filter of `taps` taps centred on sample `centre` of `len`: clipped at the
/// buffer edges rather than wrapped, each sample keeping the tap it would have in the middle.
pub open spec fn is_window(window: TapWindow, centre: int, len: int, taps: int) -> bool {
    let half = taps / 2;
    let lo = if centre - half > 0 {
        centre - half
    } else {
        0
    };
    let hi = if centre + half < len - 1 {
        centre + half
    } else {
        len - 1
    };
    let off = half - (centre - lo);
    &&& window.first_sample == lo
    &&& window.first_tap == off
    &&& window.count == if hi - lo + 1 <= taps - off {
        hi - lo + 1
    } else {
        taps - off
    }
}

/// The window of one output sample of a stage.
pub fn tap_window(centre: usize, len: usize, taps: usize) -> (window: TapWindow)
    requires
        centre < len,
        len + taps <= usize::MAX,
    ensures
        is_window(window, centre as int, len as int, taps as int),
        window.first_sample + window.count <= len,
        window.first_tap + window.count <= taps,
{
    let half: usize = taps / 2;
    let lo: usize = if centre > half {
        centre - half
    } else {
        0
    };
    let hi: usize = if centre + half < len - 1 {
        centre + half
    } else {
        len - 1
    };
    let off: usize = half - (centre - lo);
    let samples: usize = hi - lo + 1;
    let left: usize = taps - off;
    TapWindow {
        first_sample: lo,
        first_tap: off,
        count: if samples <= left {
            samples
        } else {
            left
        },
    }
}

/// In the middle of a buffer an odd filter meets one sample per tap, half of them either side.
pub proof fn interior_window_is_whole(window: TapWindow, centre: int, len: int, taps: int)
    requires
        is_window(window, centre, len, taps),
        taps % 2 == 1,
        taps / 2 <= centre,
        centre + taps / 2 < len,
    ensures
        window.first_sample == centre - taps / 2,
        window.first_tap == 0,
        window.count == taps,
{
}

/// The successive sums of products of samples and taps, built up from `zero` in order.
pub open spec fn are_partial_sums<T, C, F: Fn(T, T, C) -> T>(
    mac: F,
    zero: T,
    samples: Seq<T>,
    taps: Seq<C>,
    sums: Seq<T>,
) -> bool {
    &&& sums.len() > 0
    &&& sums[0] == zero
    &&& forall|i: int|
        0 <= i < sums.len() - 1 ==> call_ensures(
            mac,
            (sums[i], samples[i], taps[i]),
            #[trigger] sums[i + 1],
        )
}

/// `acc` is a sum of the first `n` products of samples and taps.
pub open spec fn accumulates<T, C, F: Fn(T, T, C) -> T>(
    mac: F,
    zero: T,
    samples: Seq<T>,
    taps: Seq<C>,
    n: int,
    acc: T,
) -> bool {
    exists|sums: Seq<T>| #[trigger]
        are_partial_sums(mac, zero, samples, taps, sums) && sums.len() == n + 1 && sums.last()
            == acc
}

/// `value` is output `k` of a decimate-by-`m` stage.
pub open spec fn is_output<T, C, F: Fn(T, T, C) -> T>(
    mac: F,
    zero: T,
    input: Seq<T>,
    taps: Seq<C>,
    m: int,
    k: int,
    value: T,
) -> bool {
    exists|window: TapWindow|
        {
            &&& #[trigger] is_window(window, k * m, input.len() as int, taps.len() as int)
            &&& accumulates(
                mac,
                zero,
                input.skip(window.first_sample as int),
                taps.skip(window.first_tap as int),
                window.count as int,
                value,
            )
        }
}

/// `output` is what a decimate-by-`m` stage makes of `input`.
pub open spec fn is_stage_output<T, C, F: Fn(T, T, C) -> T>(
    mac: F,
    zero: T,
    input: Seq<T>,
    taps: Seq<C>,
    m: int,
    output: Seq<T>,
) -> bool {
    &&& output.len() == input.len() as int / m
    &&& forall|k: int|
        0 <= k < output.len() ==> is_output(mac, zero, input, taps, m, k, #[trigger] output[k])
}

/// Filters and keeps every `m`-th sample. `mac(acc, x, tap)` is the multiply-accumulate.
pub fn run_stage<T: Copy, C: Copy, F: Fn(T, T, C) -> T>(
    input: &Vec<T>,
    taps: &Vec<C>,
    m: usize,
    zero: T,
    mac: &F,
) -> (output: Vec<T>)
    requires
        m > 0,
        input.len() + taps.len() <= usize::MAX,
        forall|acc: T, x: T, tap: C| #[trigger] call_requires(*mac, (acc, x, tap)),
    ensures
        is_stage_output(*mac, zero, input@, taps@, m as int, output@),
{
    let out_len: usize = input.len() / m;
    let mut output: Vec<T> = Vec::new();
    let mut k: usize = 0;
    while k < out_len
        invariant
            m > 0,
            out_len == input.len() as int / m as int,
            input.len() + taps.len() <= usize::MAX,
            forall|acc: T, x: T, tap: C| #[trigger] call_requires(*mac, (acc, x, tap)),
            k <= out_len,
            output.len() == k,
            forall|j: int|
                0 <= j < k ==> is_output(
                    *mac,
                    zero,
                    input@,
                    taps@,
                    m as int,
                    j,
                    #[trigger] output@[j],
                ),
        decreases out_len - k,
    {
        proof {
            lemma_fundamental_div_mod(input.len() as int, m as int);
            lemma_mod_bound(input.len() as int, m as int);
            assert(0 <= k * m && k * m + m <= input.len()) by (nonlinear_arith)
                requires
                    0 <= k,
                    k + 1 <= out_len,
                    m > 0,
                    input.len() == m * out_len + input.len() as int % m as int,
                    0 <= input.len() as int % m as int,
            ;
        }
        let centre: usize = k * m;
        let window: TapWindow = tap_window(centre, input.len(), taps.len());
        let ghost samples = input@.skip(window.first_sample as int);
        let ghost weights = taps@.skip(window.first_tap as int);
        let mut acc: T = zero;
        let mut i: usize = 0;
        let ghost mut sums: Seq<T> = seq![zero];
        while i < window.count
            invariant
                forall|acc: T, x: T, tap: C| #[trigger] call_requires(*mac, (acc, x, tap)),
                i <= window.count,
                window.first_sample + window.count <= input.len(),
                window.first_tap + window.count <= taps.len(),
                samples == input@.skip(window.first_sample as int),
                weights == taps@.skip(window.first_tap as int),
                are_partial_sums(*mac, zero, samples, weights, sums),
                sums.len() == i + 1,
                sums.last() == acc,
            decreases window.count - i,
        {
            let x: T = input[window.first_sample + i];
            let tap: C = taps[window.first_tap + i];
            assert(samples[i as int] == x && weights[i as int] == tap);
            acc = (*mac)(acc, x, tap);
            proof {
                let longer = sums.push(acc);
                assert forall|j: int| 0 <= j < longer.len() - 1 implies call_ensures(
                    *mac,
                    (longer[j], samples[j], weights[j]),
                    #[trigger] longer[j + 1],
                ) by {
                    if j + 1 < sums.len() {
                        assert(longer[j + 1] == sums[j + 1]);
                    }
                }
                sums = longer;
            }
            i += 1;
        }
        output.push(acc);
        assert(accumulates(*mac, zero, samples, weights, window.count as int, acc));
        assert(is_output(*mac, zero, input@, taps@, m as int, k as int, acc));
        k += 1;
    }
    output
}

/// What goes into the first stage of a cascade and what comes out of each stage.
pub open spec fn are_stage_signals<T, C, F: Fn(T, T, C) -> T>(
    mac: F,
    zero: T,
    stages: Seq<DecimationStage<C>>,
    signals: Seq<Seq<T>>,
) -> bool {
    forall|n: int|
        0 <= n < signals.len() - 1 ==> is_stage_output(
            mac,
            zero,
            signals[n],
            stages[n].taps@,
            stages[n].factor as int,
            #[trigger] signals[n + 1],
        )
}

/// `output` is what the first `n` stages of a cascade make of `input`.
pub open spec fn cascades<T, C, F: Fn(T, T, C) -> T>(
    mac: F,
    zero: T,
    stages: Seq<DecimationStage<C>>,
    n: int,
    input: Seq<T>,
    output: Seq<T>,
) -> bool {
    exists|signals: Seq<Seq<T>>|
        {
            &&& #[trigger] are_stage_signals(mac, zero, stages, signals)
            &&& signals.len() == n + 1
            &&& signals[0] == input
            &&& signals.last() == output
        }
}

pub(crate) fn copy_of<T: Copy>(samples: &Vec<T>) -> (copy: Vec<T>)
    ensures
        copy@ == samples@,
{
    let mut copy: Vec<T> = Vec::new();
    let mut i: usize = 0;
    while i < samples.len()
        invariant
            i <= samples.len(),
            copy@ == samples@.take(i as int),
        decreases samples.len() - i,
    {
        copy.push(samples[i]);
        assert(copy@ =~= samples@.take(i + 1));
        i += 1;
    }
    assert(copy@ =~= samples@);
    copy
}

/// What is left of an output once its unsettled samples are dropped.
pub open spec fn settled_part<T>(whole: Seq<T>, warmup: int) -> Seq<T> {
    whole.skip(
        if warmup < whole.len() {
            warmup
        } else {
            whole.len() as int
        },
    )
}

impl<C: Copy> DecimationChain<C> {
    /// No filter is too long to be laid over a buffer of this length.
    pub open spec fn fits(&self, len: int) -> bool {
        forall|i: int|
            0 <= i < self.stages.len() ==> len + (#[trigger] self.stages[i]).taps.len()
                <= usize::MAX
    }

    /// Filters and downsamples, returning only fully settled output samples. A record too short
    /// to settle gives none.
    pub fn apply<T: Copy, F: Fn(T, T, C) -> T>(&self, samples: &Vec<T>, zero: T, mac: &F) -> (output:
        Vec<T>)
        requires
            self.wf(),
            self.fits(samples.len() as int),
            forall|acc: T, x: T, tap: C| #[trigger] call_requires(*mac, (acc, x, tap)),
        ensures
            exists|whole: Seq<T>|
                {
                    &&& #[trigger] cascades(
                        *mac,
                        zero,
                        self.stages@,
                        self.stages.len() as int,
                        samples@,
                        whole,
                    )
                    &&& output@ == settled_part(whole, self.warmup_out_samples as int)
                },
    {
        let mut current: Vec<T> = copy_of(samples);
        let mut n: usize = 0;
        let ghost mut signals: Seq<Seq<T>> = seq![samples@];
        while n < self.stages.len()
            invariant
                self.wf(),
                self.fits(samples.len() as int),
                forall|acc: T, x: T, tap: C| #[trigger] call_requires(*mac, (acc, x, tap)),
                n <= self.stages.len(),
                current.len() <= samples.len(),
                are_stage_signals(*mac, zero, self.stages@, signals),
                signals.len() == n + 1,
                signals[0] == samples@,
                signals.last() == current@,
            decreases self.stages.len() - n,
        {
            assert(self.stages[n as int].factor >= 1);
            assert(samples.len() + self.stages[n as int].taps.len() <= usize::MAX);
            let stage: &DecimationStage<C> = &self.stages[n];
            let next: Vec<T> = run_stage(&current, &stage.taps, stage.factor, zero, mac);
            proof {
                lemma_div_is_ordered_by_denominator(current.len() as int, 1, stage.factor as int);
                assert(current.len() as int / 1 == current.len());
                let longer = signals.push(next@);
                assert forall|j: int| 0 <= j < longer.len() - 1 implies is_stage_output(
                    *mac,
                    zero,
                    longer[j],
                    self.stages@[j].taps@,
                    self.stages@[j].factor as int,
                    #[trigger] longer[j + 1],
                ) by {
                    if j + 1 < signals.len() {
                        assert(longer[j + 1] == signals[j + 1]);
                    }
                }
                signals = longer;
            }
            current = next;
            n += 1;
        }
        let ghost whole = current@;
        assert(cascades(*mac, zero, self.stages@, self.stages.len() as int, samples@, whole));
        let unsettled: usize = if self.warmup_out_samples < current.len() {
            self.warmup_out_samples
        } else {
            current.len()
        };
        let settled: Vec<T> = current.split_off(unsettled);
        assert(settled@ =~= settled_part(whole, self.warmup_out_samples as int));
        settled
    }
}

/// `output` is what a cascade makes of `samples`: fully settled samples only. A factor of 1
/// bypasses the chain.
pub open spec fn is_decimated<T, C, F: Fn(T, T, C) -> T>(
    mac: F,
    zero: T,
    chain: DecimationChain<C>,
    factor: int,
    samples: Seq<T>,
    output: Seq<T>,
) -> bool {
    if factor <= 1 || samples.len() == 0 {
        output == samples
    } else {
        exists|whole: Seq<T>|
            {
                &&& #[trigger] cascades(
                    mac,
                    zero,
                    chain.stages@,
                    chain.stages.len() as int,
                    samples,
                    whole,
                )
                &&& output == settled_part(whole, chain.warmup_out_samples as int)
            }
    }
}

/// Applies the decimation cascade and downsamples by its factor. A factor of 1 bypasses the
/// chain, as it does in hardware.
pub fn apply_decimation<T: Copy, C: Copy, F: Fn(T, T, C) -> T>(
    samples: &Vec<T>,
    factor: u32,
    chain: &DecimationChain<C>,
    zero: T,
    mac: &F,
) -> (output: Vec<T>)
    requires
        chain.wf(),
        chain.fits(samples.len() as int),
        forall|acc: T, x: T, tap: C| #[trigger] call_requires(*mac, (acc, x, tap)),
    ensures
        is_decimated(*mac, zero, *chain, factor as int, samples@, output@),
{
    if factor <= 1 || samples.len() == 0 {
        copy_of(samples)
    } else {
        chain.apply(samples, zero, mac)
    }
}

/// The length left of `len` samples after stages of the given factors.
pub open spec fn cascade_length(len: int, factors: Seq<usize>) -> int
    decreases factors.len(),
{
    if factors.len() == 0 {
        len
    } else {
        cascade_length(len, factors.drop_last()) / factors.last() as int
    }
}

/// Dropping samples stage by stage keeps exactly as many as dropping them all at once.
pub proof fn cascade_length_is_quotient(len: int, factors: Seq<usize>)
    requires
        0 <= len,
        forall|i: int| 0 <= i < factors.len() ==> 1 <= #[trigger] factors[i],
    ensures
        product_of(factors) >= 1,
        cascade_length(len, factors) == len / product_of(factors) as int,
    decreases factors.len(),
{
    if factors.len() > 0 {
        cascade_length_is_quotient(len, factors.drop_last());
        let p = product_of(factors.drop_last()) as int;
        let m = factors.last() as int;
        lemma_div_denominator(len, p, m);
        assert(p * m >= 1) by (nonlinear_arith)
            requires
                p >= 1,
                m >= 1,
        ;
        assert(len / p / m == len / (p * m));
    } else {
        assert(len / 1 == len);
    }
}

proof fn signal_lengths<T, C, F: Fn(T, T, C) -> T>(
    mac: F,
    zero: T,
    stages: Seq<DecimationStage<C>>,
    signals: Seq<Seq<T>>,
    factors: Seq<usize>,
    n: int,
)
    requires
        are_stage_signals(mac, zero, stages, signals),
        0 <= n < signals.len(),
        n <= factors.len(),
        forall|i: int| 0 <= i < n ==> (#[trigger] stages[i]).factor == factors[i],
    ensures
        signals[n].len() == cascade_length(signals[0].len() as int, factors.take(n)),
    decreases n,
{
    if n > 0 {
        signal_lengths(mac, zero, stages, signals, factors, n - 1);
        assert(factors.take(n).drop_last() =~= factors.take(n - 1));
        assert(stages[n - 1].factor == factors[n - 1]);
        assert(signals[(n - 1) + 1] == signals[n]);
    } else {
        assert(factors.take(0) =~= Seq::empty());
    }
}

/// The cascade built for a factor keeps one sample in every `factor`, settled or not.
pub proof fn cascade_keeps_one_in_factor<T, C, F: Fn(T, T, C) -> T>(
    mac: F,
    zero: T,
    stages: Seq<DecimationStage<C>>,
    factor: nat,
    input: Seq<T>,
    output: Seq<T>,
)
    requires
        0 < factor <= u32::MAX,
        stages.len() == stage_factors(factor).len(),
        forall|k: int|
            0 <= k < stages.len() ==> (#[trigger] stages[k]).factor == stage_factors(factor)[k],
        cascades(mac, zero, stages, stages.len() as int, input, output),
    ensures
        output.len() == input.len() as int / factor as int,
{
    let factors = stage_factors(factor);
    let n = stages.len() as int;
    let signals = choose|signals: Seq<Seq<T>>|
        #[trigger] are_stage_signals(mac, zero, stages, signals) && signals.len() == n + 1
            && signals[0] == input && signals.last() == output;
    signal_lengths(mac, zero, stages, signals, factors, n);
    assert(factors.take(n) =~= factors);
    factors_are_few(factor);
    assert forall|i: int| 0 <= i < factors.len() implies 1 <= #[trigger] factors[i] by {
        assert(2 <= factors[i]);
    }
    cascade_length_is_quotient(input.len() as int, factors);
    stages_multiply_to_factor(factor);
}

/// The samples left of `len` after the decimation cascade: one in every `factor`, less the
/// unsettled ones. A factor of one bypasses the cascade.
pub open spec fn decimated_length(len: int, factor: int, warmup: int) -> int {
    if factor <= 1 {
        len
    } else {
        let whole = len / factor;
        if warmup < whole {
            whole - warmup
        } else {
            0
        }
    }
}

/// Decimating a record by its factor leaves one sample in every `factor`, less the settling
/// time; and of a record as long as the tile needs at some detail, at least the bins that detail
/// asks for.
pub proof fn sufficient_record_fills_the_bins<T, C, F: Fn(T, T, C) -> T>(
    mac: F,
    zero: T,
    chain: DecimationChain<C>,
    factor: nat,
    detail: SpectrumDetail,
    samples: Seq<T>,
    output: Seq<T>,
)
    requires
        0 < factor <= u32::MAX,
        chain.serves(factor),
        is_decimated(mac, zero, chain, factor as int, samples, output),
    ensures
        output.len() == decimated_length(
            samples.len() as int,
            factor as int,
            chain.warmup_out_samples as int,
        ),
        factor == 1 ==> output == samples,
        samples.len() >= tile_samples_needed(
            factor as int,
            detail.bins(),
            chain.warmup_out_samples as int,
        ) ==> {
            &&& output.len() >= detail.bins()
            &&& factor > 1 ==> output.len() == samples.len() as int / factor as int
                - chain.warmup_out_samples
        },
{
    let d = factor as int;
    let n = samples.len() as int;
    let settling = chain.warmup_out_samples as int;
    let bins = detail.bins();
    if d > 1 {
        if n > 0 {
            let whole = choose|whole: Seq<T>|
                {
                    &&& #[trigger] cascades(
                        mac,
                        zero,
                        chain.stages@,
                        chain.stages.len() as int,
                        samples,
                        whole,
                    )
                    &&& output == settled_part(whole, settling)
                };
            cascade_keeps_one_in_factor(mac, zero, chain.stages@, factor, samples, whole);
        } else {
            assert(0int / d == 0) by (nonlinear_arith)
                requires
                    d > 1,
            ;
        }
        needed_samples_decimate_to_the_bins(n, d, bins, settling);
    } else {
        assert(bins * d == bins) by (nonlinear_arith)
            requires
                d == 1,
        ;
    }
}

/// A record as long as the tile needs has the bins and the settling time in its output.
pub(crate) proof fn needed_samples_decimate_to_the_bins(n: int, d: int, bins: int, settling: int)
    requires
        d > 1,
        0 <= n,
        0 < bins,
        0 <= settling,
    ensures
        n >= tile_samples_needed(d, bins, settling) ==> n / d >= bins + settling,
{
    if n >= tile_samples_needed(d, bins, settling) {
        let q = n / d;
        lemma_fundamental_div_mod(n, d);
        lemma_mod_bound(n, d);
        assert(q >= bins + settling) by (nonlinear_arith)
            requires
                n >= bins * d + settling * d,
                n == d * q + n % d,
                0 <= n % d < d,
                d > 1,
        ;
    }
}

/// The settling time of a cascade is exact: an output is settled from there on and not before. The
/// middle of a stage's filter must lie half the filter past the last unsettled input, or the filter
/// still meets one.
pub proof fn outputs_settle_when_their_inputs_have(
    half_lengths: Seq<int>,
    factors: Seq<int>,
    n: int,
    k: int,
)
    requires
        0 < n,
        factors[n - 1] >= 1,
    ensures
        k >= warmup(half_lengths, factors, n) <==> k * factors[n - 1] - half_lengths[n - 1]
            >= warmup(half_lengths, factors, n - 1),
        warmup(half_lengths, factors, 0) == 0,
{
    let m = factors[n - 1];
    let x = warmup(half_lengths, factors, n - 1) + half_lengths[n - 1];
    let q = ceil_div(x, m);
    lemma_fundamental_div_mod(x + m - 1, m);
    lemma_mod_bound(x + m - 1, m);
    if k >= q {
        assert(k * m >= x) by (nonlinear_arith)
            requires
                k >= q,
                x + m - 1 == m * q + (x + m - 1) % m,
                0 <= (x + m - 1) % m < m,
                m >= 1,
        ;
    } else {
        assert(k * m < x) by (nonlinear_arith)
            requires
                k + 1 <= q,
                x + m - 1 == m * q + (x + m - 1) % m,
                0 <= (x + m - 1) % m < m,
                m >= 1,
        ;
    }
}

/// Every sample under a filter meets the tap that lies over it, and no tap meets anything else: the
/// tap at the middle of the filter lies over the sample it is centred on, and those past either
/// end of the record meet nothing.
pub proof fn taps_meet_the_samples_under_them(
    window: TapWindow,
    centre: int,
    len: int,
    taps: int,
    tap: int,
)
    requires
        is_window(window, centre, len, taps),
        0 <= centre < len,
        taps % 2 == 1,
        0 <= tap < taps,
    ensures
        window.first_sample - window.first_tap == centre - taps / 2,
        (0 <= centre - taps / 2 + tap < len) <==> (window.first_tap <= tap < window.first_tap
            + window.count),
{
}

/// What is left of an output once it has settled is its end: everything from the settling time on,
/// or nothing if that is past it.
pub proof fn settled_parts_are_ends<T>(whole: Seq<T>, settling: int, i: int)
    requires
        0 <= settling,
    ensures
        settling >= whole.len() ==> settled_part(whole, settling).len() == 0,
        settling < whole.len() ==> settled_part(whole, settling).len() == whole.len() - settling,
        0 <= i < settled_part(whole, settling).len() ==> settled_part(whole, settling)[i]
            == whole[settling + i],
{
}

/// A stage keeps every `m`-th sample, starting with the first: with a filter of a single tap each
/// output is that tap times its own sample.
pub proof fn stages_keep_every_mth_sample<T, C, F: Fn(T, T, C) -> T>(
    mac: F,
    zero: T,
    input: Seq<T>,
    taps: Seq<C>,
    m: int,
    output: Seq<T>,
    k: int,
)
    requires
        is_stage_output(mac, zero, input, taps, m, output),
        taps.len() == 1,
        m >= 1,
        0 <= k < output.len(),
    ensures
        output.len() == input.len() as int / m,
        0 <= k * m < input.len(),
        call_ensures(mac, (zero, input[k * m], taps[0]), output[k]),
{
    let n = input.len() as int;
    lemma_fundamental_div_mod(n, m);
    lemma_mod_bound(n, m);
    let q = n / m;
    assert(0 <= k * m && k * m < n) by (nonlinear_arith)
        requires
            0 <= k,
            k + 1 <= q,
            m >= 1,
            n == m * q + n % m,
            0 <= n % m,
    ;
    assert(is_output(mac, zero, input, taps, m, k, output[k]));
    let window = choose|window: TapWindow|
        {
            &&& #[trigger] is_window(window, k * m, n, 1)
            &&& accumulates(
                mac,
                zero,
                input.skip(window.first_sample as int),
                taps.skip(window.first_tap as int),
                window.count as int,
                output[k],
            )
        };
    let samples = input.skip(window.first_sample as int);
    let weights = taps.skip(window.first_tap as int);
    let sums = choose|sums: Seq<T>| #[trigger]
        are_partial_sums(mac, zero, samples, weights, sums) && sums.len() == window.count + 1
            && sums.last() == output[k];
    assert(window.first_sample == k * m && window.first_tap == 0 && window.count == 1);
    assert(samples[0] == input[k * m] && weights[0] == taps[0]);
    assert(call_ensures(mac, (sums[0], samples[0], weights[0]), sums[0int + 1]));
}

/// The stages take the primes in turn: twos, then threes, fives and sevens, and last whatever of the
/// factor has none of them. No stage is by less than the one before it, but for that last one.
pub proof fn stages_take_the_primes_in_turn(factor: nat, i: int, j: int)
    requires
        0 < factor <= u32::MAX,
        0 <= i < j < stage_factors(factor).len(),
    ensures
        ({
            let stages = stage_factors(factor);
            &&& stages[i] == 2 || stages[i] == 3 || stages[i] == 5 || stages[i] == 7
            &&& stages[i] <= stages[j] || j == stages.len() - 1 && odd_rest(factor) > 1
        }),
{
    let a = stripped(factor, 2);
    let b = stripped(a, 3);
    let c = stripped(b, 5);
    let (p, q, r, s) = (
        exponent(factor, 2) as int,
        exponent(a, 3) as int,
        exponent(b, 5) as int,
        exponent(c, 7) as int,
    );
    let stages = stage_factors(factor);
    assert(forall|k: int| 0 <= k < p ==> stages[k] == 2);
    assert(forall|k: int| p <= k < p + q ==> stages[k] == 3);
    assert(forall|k: int| p + q <= k < p + q + r ==> stages[k] == 5);
    assert(forall|k: int| p + q + r <= k < p + q + r + s ==> stages[k] == 7);
}

} // verus!
