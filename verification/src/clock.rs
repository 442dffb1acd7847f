//! Exact time: the instants of a block's samples, and where oscillations and repetitions stand at
//! each of them.

use vstd::arithmetic::div_mod::*;
use vstd::prelude::*;
use crate::units::{div_floor, mod_floor, Micro};

verus! {

// ---------------------------------------------------------------------------
// Long products
// ---------------------------------------------------------------------------

/// Quotient and remainder of `a * b` by `m`, for products too long to hold: `b` is taken in
/// pieces of 24 bits, from the top.
fn mul_div(a: i128, b: i128, m: i128) -> (result: (i128, i128))
    requires
        0 <= a < m,
        m <= 0x1_0000_0000_0000_0000_0000_0000,
        0 <= b,
    ensures
        result.0 * m + result.1 == a * b,
        0 <= result.0 <= b,
        0 <= result.1 < m,
    decreases b,
{
    if b < 0x100_0000 || (m <= 0x800_0000_0000_0000_0000 && b < 0x8_0000_0000_0000) {
        proof {
            if b < 0x100_0000 {
                assert(0 <= a * b <= 0x1_0000_0000_0000_0000_0000_0000 * 0x100_0000)
                    by (nonlinear_arith)
                    requires
                        0 <= a <= 0x1_0000_0000_0000_0000_0000_0000,
                        0 <= b <= 0x100_0000,
                ;
            } else {
                assert(0 <= a * b <= 0x800_0000_0000_0000_0000 * 0x8_0000_0000_0000)
                    by (nonlinear_arith)
                    requires
                        0 <= a <= 0x800_0000_0000_0000_0000,
                        0 <= b <= 0x8_0000_0000_0000,
                ;
            }
        }
        let v: i128 = a * b;
        proof {
            lemma_fundamental_div_mod(v as int, m as int);
            lemma_mod_bound(v as int, m as int);
            lemma_div_pos_is_pos(v as int, m as int);
            quotient_is_at_most(a as int, b as int, m as int, v as int / m as int, v as int % m as int);
        }
        (v / m, v % m)
    } else {
        let (q, r) = mul_div(a, b / 0x100_0000, m);
        let d: i128 = b % 0x100_0000;
        let ghost high = b as int / 0x100_0000;
        assert(b == high * 0x100_0000 + d);
        assert(0 <= r * 0x100_0000 + a * d < 0x1_0000_0000_0000_0000_0000_0000 * 0x200_0000)
            by (nonlinear_arith)
            requires
                0 <= r < 0x1_0000_0000_0000_0000_0000_0000,
                0 <= a < 0x1_0000_0000_0000_0000_0000_0000,
                0 <= d < 0x100_0000,
        ;
        assert(0 <= a * d) by (nonlinear_arith)
            requires
                0 <= a,
                0 <= d,
        ;
        let v: i128 = r * 0x100_0000 + a * d;
        let ghost more = v as int / m as int;
        let ghost rest = v as int % m as int;
        proof {
            lemma_fundamental_div_mod(v as int, m as int);
            lemma_mod_bound(v as int, m as int);
            lemma_div_pos_is_pos(v as int, m as int);
            assert((q * 0x100_0000 + more) * m + rest == a * b) by (nonlinear_arith)
                requires
                    q * m + r == a * high,
                    v == r * 0x100_0000 + a * d,
                    v == m * more + rest,
                    b == high * 0x100_0000 + d,
            ;
            quotient_is_at_most(a as int, b as int, m as int, q * 0x100_0000 + more, rest);
        }
        (q * 0x100_0000 + v / m, v % m)
    }
}

proof fn quotient_is_at_most(a: int, b: int, m: int, q: int, r: int)
    requires
        0 <= a < m,
        0 <= b,
        q * m + r == a * b,
        0 <= r,
    ensures
        q <= b,
{
    if q > b {
        assert(q * m > a * b) by (nonlinear_arith)
            requires
                q >= b + 1,
                0 <= a < m,
                0 <= b,
        ;
    }
}

/// Largest whole period the exact arithmetic covers.
pub const WHOLE_LIMIT: i128 = 0x1_0000_0000_0000_0000_0000_0000;

/// The remainder of `t * count` by `whole`.
fn product_mod(t: i128, count: i128, whole: i128) -> (position: i128)
    requires
        0 < whole <= WHOLE_LIMIT,
        count > i128::MIN,
    ensures
        position == (t * count) % whole as int,
        0 <= position < whole,
{
    let a: i128 = mod_floor(t, whole);
    let size: i128 = if count < 0 {
        -count
    } else {
        count
    };
    let (q, r) = mul_div(a, size, whole);
    let ghost w = whole as int;
    let ghost k = t as int / w;
    proof {
        lemma_fundamental_div_mod(t as int, w);
    }
    if count >= 0 {
        proof {
            assert(t * count == (k * count + q) * w + r) by (nonlinear_arith)
                requires
                    t == w * k + a,
                    q * w + r == a * count,
            ;
            lemma_fundamental_div_mod_converse(t * count, w, k * count + q, r as int);
        }
        r
    } else if r == 0 {
        proof {
            assert(t * count == (k * count - q) * w) by (nonlinear_arith)
                requires
                    t == w * k + a,
                    q * w == a * size,
                    size == -count,
            ;
            lemma_fundamental_div_mod_converse(t * count, w, k * count - q, 0);
        }
        0
    } else {
        proof {
            assert(t * count == (k * count - q - 1) * w + (w - r)) by (nonlinear_arith)
                requires
                    t == w * k + a,
                    q * w + r == a * size,
                    size == -count,
            ;
            lemma_fundamental_div_mod_converse(t * count, w, k * count - q - 1, w - r);
        }
        whole - r
    }
}

// ---------------------------------------------------------------------------
// The sampling clock
// ---------------------------------------------------------------------------

/// Latest time the clocks tell, in millionths of a microsecond: thirty million years.
pub const TIME_END: i128 = 1_000_000_000_000_000_000_000_000_000;

/// Largest start time and pause, in picoseconds, at which recordings are played (100 000 s).
pub const CLOCK_LIMIT: i64 = 100_000_000_000_000_000;

/// Largest sample rate, in hertz, that the exact clock arithmetic covers (20 GHz).
pub const RATE_LIMIT: i64 = 20_000_000_000;

/// Longest block the exact clock arithmetic covers.
pub const BLOCK_LIMIT: usize = 1_000_000_000;

/// The instants of a block: sample `i` is taken at `start_time_us + (i - lead) / sample_rate_mhz`,
/// so the first `lead` samples are a run-up to the start time. The start time counts millionths
/// of a microsecond.
#[derive(Clone, Copy, Debug, PartialEq, Eq, Structural)]
pub struct SampleClock {
    pub start_time_us: i128,
    pub sample_rate_mhz: Micro,
    pub lead: usize,
}

/// How far an oscillation is into its current period, or something that repeats into its current
/// repetition: `position` out of `whole`.
#[derive(Clone, Copy, Debug, PartialEq, Eq, Structural)]
pub struct Turn {
    pub position: i128,
    pub whole: i128,
}

/// Where something that happens `count` times in every `whole` of scaled time stands at scaled
/// time `t`.
pub open spec fn turn_at(t: int, count: int, whole: int) -> Turn {
    Turn { position: ((t * count) % whole) as i128, whole: whole as i128 }
}

/// How often something that happens `count` times in every `whole` of scaled time has happened
/// by scaled time `t`.
pub open spec fn times_by(t: int, count: int, whole: int) -> int {
    (t * count) / whole
}

impl SampleClock {
    /// The clock runs forward and its arithmetic stays exact.
    pub open spec fn wf(&self) -> bool {
        &&& -TIME_END <= self.start_time_us <= TIME_END
        &&& 0 < self.sample_rate_mhz <= RATE_LIMIT
        &&& self.lead <= BLOCK_LIMIT
    }

    /// The block starts within the time recordings are played at.
    pub open spec fn is_near(&self) -> bool {
        -CLOCK_LIMIT <= self.start_time_us <= CLOCK_LIMIT
    }

    /// The instant of sample `i`, as a number of picoseconds multiplied by the rate in hertz.
    pub open spec fn scaled_time(&self, i: int) -> int {
        self.start_time_us * self.sample_rate_mhz + (i - self.lead) * 1_000_000_000_000
    }

    /// A second of scaled time.
    pub open spec fn second(&self) -> int {
        1_000_000_000_000 * self.sample_rate_mhz
    }

    proof fn time_is_bounded(&self, i: int)
        requires
            self.wf(),
            0 <= i <= BLOCK_LIMIT,
        ensures
            -21_000_000_000_000_000_000_000_000_000_000_000_000 <= self.scaled_time(i)
                <= 21_000_000_000_000_000_000_000_000_000_000_000_000,
            self.is_near() ==> -2_100_000_000_000_000_000_000_000_000 <= self.scaled_time(i)
                <= 2_100_000_000_000_000_000_000_000_000,
            -1_000_000_000_000_001 * self.second() - 1_000_000_000_000_000_000_000
                <= self.scaled_time(i) <= 1_000_000_000_000_001 * self.second()
                + 1_000_000_000_000_000_000_000,
    {
        let start = self.start_time_us as int;
        let rate = self.sample_rate_mhz as int;
        assert(-1_000_000_000_000_000_000_000_000_000 * rate <= start * rate
            <= 1_000_000_000_000_000_000_000_000_000 * rate) by (nonlinear_arith)
            requires
                -1_000_000_000_000_000_000_000_000_000 <= start <= 1_000_000_000_000_000_000_000_000_000,
                0 < rate,
        ;
        if self.is_near() {
            assert(-100_000_000_000_000_000 * rate <= start * rate <= 100_000_000_000_000_000
                * rate) by (nonlinear_arith)
                requires
                    -100_000_000_000_000_000 <= start <= 100_000_000_000_000_000,
                    0 < rate,
            ;
        }
    }

    /// The instant of sample `i`.
    pub(crate) fn scaled(&self, i: usize) -> (t: i128)
        requires
            self.wf(),
            i <= BLOCK_LIMIT,
        ensures
            t == self.scaled_time(i as int),
            self.is_near() ==> -2_100_000_000_000_000_000_000_000_000 <= t
                <= 2_100_000_000_000_000_000_000_000_000,
    {
        let after_start: i128 = i as i128 - self.lead as i128;
        proof {
            self.time_is_bounded(i as int);
            assert(-1_000_000_000_000_000_000_000_000_000 * 20_000_000_000 <= self.start_time_us
                * self.sample_rate_mhz <= 1_000_000_000_000_000_000_000_000_000 * 20_000_000_000)
                by (nonlinear_arith)
                requires
                    -1_000_000_000_000_000_000_000_000_000 <= self.start_time_us
                        <= 1_000_000_000_000_000_000_000_000_000,
                    0 < self.sample_rate_mhz <= 20_000_000_000,
            ;
        }
        self.start_time_us * self.sample_rate_mhz as i128 + after_start * 1_000_000_000_000
    }

    /// How far something that happens `count` times in `per` seconds is into its current period
    /// at sample `i`.
    pub fn turn(&self, i: usize, count: i128, per: i128) -> (turn: Turn)
        requires
            self.wf(),
            i <= BLOCK_LIMIT,
            count > i128::MIN,
            1 <= per <= 1_000_000,
        ensures
            turn == turn_at(self.scaled_time(i as int), count as int, per * self.second()),
            0 <= turn.position < turn.whole,
    {
        let t: i128 = self.scaled(i);
        assert(0 < per * self.second() <= 1_000_000 * 20_000_000_000_000_000_000_000)
            by (nonlinear_arith)
            requires
                1 <= per <= 1_000_000,
                0 < self.second() <= 20_000_000_000_000_000_000_000,
        ;
        let whole: i128 = per * (1_000_000_000_000 * self.sample_rate_mhz as i128);
        Turn { position: product_mod(t, count, whole), whole }
    }

    /// How far something that repeats every `period_us` is into its current repetition at sample
    /// `i`, in scaled time.
    pub fn into_repetition(&self, i: usize, period_us: Micro) -> (turn: Turn)
        requires
            self.wf(),
            i <= BLOCK_LIMIT,
            0 < period_us,
        ensures
            turn == turn_at(self.scaled_time(i as int), 1, period_us * self.sample_rate_mhz),
            0 <= turn.position < turn.whole,
    {
        let t: i128 = self.scaled(i);
        assert(0 < period_us * self.sample_rate_mhz <= 0x7fff_ffff_ffff_ffff * 20_000_000_000)
            by (nonlinear_arith)
            requires
                0 < period_us <= 0x7fff_ffff_ffff_ffff,
                0 < self.sample_rate_mhz <= 20_000_000_000,
        ;
        let whole: i128 = period_us as i128 * self.sample_rate_mhz as i128;
        Turn { position: mod_floor(t, whole), whole }
    }

    /// How often something that happens `count` times in `per` seconds has happened by sample
    /// `i`, counted from time zero.
    pub fn times_elapsed(&self, i: usize, count: i64, per: i128) -> (n: i128)
        requires
            self.wf(),
            i <= BLOCK_LIMIT,
            0 <= count,
            1 <= per <= 1_000_000,
        ensures
            n == times_by(self.scaled_time(i as int), count as int, per * self.second()),
            -0x4000_0000_0000_0000_0000_0000_0000_0000 <= n
                <= 0x4000_0000_0000_0000_0000_0000_0000_0000,
    {
        let t: i128 = self.scaled(i);
        let ghost second = self.second();
        assert(second <= per * second <= 1_000_000 * 20_000_000_000_000_000_000_000)
            by (nonlinear_arith)
            requires
                1 <= per <= 1_000_000,
                0 < second <= 20_000_000_000_000_000_000_000,
        ;
        let whole: i128 = per * (1_000_000_000_000 * self.sample_rate_mhz as i128);
        let full: i128 = div_floor(t, whole);
        let rest: i128 = mod_floor(t, whole);
        let (q, r) = mul_div(rest, count as i128, whole);
        proof {
            self.time_is_bounded(i as int);
            lemma_fundamental_div_mod(t as int, whole as int);
            let w = whole as int;
            let x = t as int;
            assert(-1_000_000_003_000_000_000 <= full <= 1_000_000_003_000_000_000)
                by (nonlinear_arith)
                requires
                    x == w * full + rest,
                    0 <= rest < w,
                    w >= second,
                    second >= 1_000_000_000_000,
                    -1_000_000_000_000_001 * second - 1_000_000_000_000_000_000_000 <= x
                        <= 1_000_000_000_000_001 * second + 1_000_000_000_000_000_000_000,
            ;
            assert(-1_000_000_003_000_000_000 * 0x8000_0000_0000_0000 <= full * count
                <= 1_000_000_003_000_000_000 * 0x8000_0000_0000_0000) by (nonlinear_arith)
                requires
                    -1_000_000_003_000_000_000 <= full <= 1_000_000_003_000_000_000,
                    0 <= count <= 0x8000_0000_0000_0000,
            ;
            assert(x * count == (full * count + q) * w + r) by (nonlinear_arith)
                requires
                    x == w * full + rest,
                    q * w + r == rest * count,
            ;
            lemma_fundamental_div_mod_converse(x * count, w, full * count + q, r as int);
        }
        full * count as i128 + q
    }

    /// Time never runs backwards: by a later sample nothing has happened less often.
    pub proof fn counts_are_monotone(&self, i: int, j: int, count: int, per: int)
        requires
            self.wf(),
            i <= j,
            0 <= count,
            0 < per,
        ensures
            times_by(self.scaled_time(i), count, per * self.second()) <= times_by(
                self.scaled_time(j),
                count,
                per * self.second(),
            ),
    {
        let a = self.scaled_time(i);
        let b = self.scaled_time(j);
        assert(a * count <= b * count) by (nonlinear_arith)
            requires
                a <= b,
                0 <= count,
        ;
        assert(per * self.second() > 0) by (nonlinear_arith)
            requires
                0 < per,
                self.second() > 0,
        ;
        lemma_div_is_ordered(a * count, b * count, per * self.second());
    }

    /// Something that repeats is where it was a whole number of repetitions ago.
    pub proof fn repetitions_are_alike(&self, i: int, j: int, k: int, period: int)
        requires
            self.wf(),
            0 < period,
            self.scaled_time(j) == self.scaled_time(i) + k * (period * self.sample_rate_mhz),
        ensures
            turn_at(self.scaled_time(j), 1, period * self.sample_rate_mhz) == turn_at(
                self.scaled_time(i),
                1,
                period * self.sample_rate_mhz,
            ),
    {
        let cycle = period * self.sample_rate_mhz;
        assert(cycle > 0) by (nonlinear_arith)
            requires
                cycle == period * self.sample_rate_mhz,
                0 < period,
                0 < self.sample_rate_mhz,
        ;
        lemma_mod_multiples_vanish(k, self.scaled_time(i), cycle);
        assert(k * cycle == cycle * k) by (nonlinear_arith);
    }
}

} // verus!
