//! Fixed-point quantities.

use vstd::arithmetic::div_mod::*;
use vstd::prelude::*;

verus! {

/// A quantity counted in millionths of the unit its name carries.
///
/// `gain_db: Micro` holds millionths of a decibel, `cutoff_mhz: Micro` millionths of a
/// megahertz (so whole hertz), `sample_rate_gsps: Micro` millionths of a gigasample per second
/// (so whole kilosamples per second), `delay_ns: Micro` millionths of a nanosecond.
pub type Micro = i64;

/// One whole unit.
pub const UNIT: Micro = 1_000_000;

/// Largest magnitude the table and phase arithmetic accepts: 10^12 whole units.
pub const MICRO_LIMIT: Micro = 1_000_000_000_000_000_000;

/// The quantity is at most [`MICRO_LIMIT`] in magnitude.
pub open spec fn within_limit(x: Micro) -> bool {
    -MICRO_LIMIT <= x <= MICRO_LIMIT
}

/// An exact quotient, in the millionths that [`Micro`] counts.
#[derive(Clone, Copy, Debug, PartialEq, Eq, Structural)]
pub struct Ratio {
    pub over: i128,
    pub under: i128,
}

impl Ratio {
    /// There is a quotient.
    pub open spec fn wf(self) -> bool {
        self.under > 0
    }

    /// The quotient is the one of two numbers.
    pub open spec fn equals(self, a: int, b: int) -> bool {
        self.over * b == a * self.under
    }
}

/// Quotient rounded towards negative infinity.
pub(crate) fn div_floor(a: i128, b: i128) -> (q: i128)
    requires
        b > 0,
    ensures
        q == a as int / b as int,
{
    if a >= 0 {
        a / b
    } else {
        // -1 - a is non-negative and cannot overflow.
        let flipped: i128 = (-1 - a) / b;
        proof {
            let x = a as int;
            let y = b as int;
            let k = (-1 - x) / y;
            lemma_fundamental_div_mod(-1 - x, y);
            lemma_mod_bound(-1 - x, y);
            let r = (-1 - x) % y;
            assert(x == y * (-1 - k) + (y - 1 - r)) by (nonlinear_arith)
                requires
                    -1 - x == y * k + r,
            ;
            lemma_fundamental_div_mod_converse(x, y, -1 - k, y - 1 - r);
        }
        -1 - flipped
    }
}

/// Remainder of a division rounded towards negative infinity.
pub(crate) fn mod_floor(a: i128, b: i128) -> (r: i128)
    requires
        b > 0,
    ensures
        r == a as int % b as int,
        0 <= r < b,
{
    if a >= 0 {
        a % b
    } else {
        // -1 - a is non-negative and cannot overflow.
        let flipped: i128 = (-1 - a) % b;
        proof {
            let x = a as int;
            let y = b as int;
            let k = (-1 - x) / y;
            lemma_fundamental_div_mod(-1 - x, y);
            lemma_mod_bound(-1 - x, y);
            let r = (-1 - x) % y;
            assert(x == y * (-1 - k) + (y - 1 - r)) by (nonlinear_arith)
                requires
                    -1 - x == y * k + r,
            ;
            lemma_fundamental_div_mod_converse(x, y, -1 - k, y - 1 - r);
        }
        b - 1 - flipped
    }
}

} // verus!
