//! Transform lengths that factor into 2, 3 and 5.

use vstd::arithmetic::div_mod::*;
use vstd::prelude::*;

verus! {

/// How often `p` divides `m`.
pub open spec fn exponent(m: nat, p: nat) -> nat
    decreases m,
{
    if m > 0 && p > 1 && m % p == 0 {
        proof {
            lemma_div_decreases(m as int, p as int);
        }
        1 + exponent(m / p, p)
    } else {
        0
    }
}

/// `m` with every factor `p` taken out.
pub open spec fn stripped(m: nat, p: nat) -> nat
    decreases m,
{
    if m > 0 && p > 1 && m % p == 0 {
        proof {
            lemma_div_decreases(m as int, p as int);
        }
        stripped(m / p, p)
    } else {
        m
    }
}

/// `m` has no prime factor above 5.
pub open spec fn is_smooth(m: nat) -> bool {
    stripped(stripped(stripped(m, 2), 3), 5) == 1
}

/// The exponents of 3 and of 5 in `m`.
pub open spec fn exponent3(m: nat) -> nat {
    exponent(stripped(m, 2), 3)
}

pub open spec fn exponent5(m: nat) -> nat {
    exponent(stripped(stripped(m, 2), 3), 5)
}

/// Relative cost of a capture of smooth length `m`, in ten-thousandths of the cost of a sample
/// in a power-of-two transform.
///
/// Thirty percent of the cost scales with the radix mix of the transform: there a factor of 3
/// adds 3.2 percent and a factor of 5 adds 4.4 percent. The rest is linear in the length.
pub open spec fn cost(m: nat) -> nat {
    m * (10_000 + 96 * exponent3(m) + 132 * exponent5(m))
}

pub(crate) proof fn exponent_is_small(m: nat, p: nat)
    requires
        p > 1,
    ensures
        m > 0 ==> exponent(m, p) < m,
        stripped(m, p) <= m,
        m > 0 ==> stripped(m, p) > 0,
    decreases m,
{
    if m > 0 && m % p == 0 {
        lemma_fundamental_div_mod(m as int, p as int);
        assert(0 < m / p < m) by (nonlinear_arith)
            requires
                m == p * (m / p),
                p > 1,
                m > 0,
        ;
        exponent_is_small(m / p, p);
    }
}

/// Takes every factor `p` out of `m`; returns what is left and how many there were.
fn strip(m: usize, p: usize) -> (left: (usize, u32))
    requires
        m > 0,
        p > 1,
        exponent(m as nat, p as nat) <= 64,
    ensures
        left.0 == stripped(m as nat, p as nat),
        left.1 == exponent(m as nat, p as nat),
        0 < left.0 <= m,
{
    let mut rest: usize = m;
    let mut count: u32 = 0;
    while rest % p == 0
        invariant
            p > 1,
            0 < rest <= m,
            stripped(rest as nat, p as nat) == stripped(m as nat, p as nat),
            count + exponent(rest as nat, p as nat) == exponent(m as nat, p as nat),
            exponent(m as nat, p as nat) <= 64,
        decreases rest,
    {
        proof {
            lemma_fundamental_div_mod(rest as int, p as int);
            assert(0 < rest as int / p as int && rest as int / (p as int) < rest) by (nonlinear_arith)
                requires
                    rest == p * (rest as int / p as int),
                    p > 1,
                    rest > 0,
            ;
        }
        rest = rest / p;
        count += 1;
    }
    (rest, count)
}

/// `b` to the power `e`.
pub open spec fn power(b: nat, e: nat) -> nat
    decreases e,
{
    if e == 0 {
        1
    } else {
        b * power(b, (e - 1) as nat)
    }
}

pub(crate) proof fn strip_factors(m: nat, p: nat)
    requires
        p > 1,
    ensures
        m == power(p, exponent(m, p)) * stripped(m, p),
    decreases m,
{
    if m > 0 && m % p == 0 {
        lemma_fundamental_div_mod(m as int, p as int);
        assert(m / p < m) by (nonlinear_arith)
            requires
                m == p * (m / p),
                p > 1,
                m > 0,
        ;
        strip_factors(m / p, p);
        let e = exponent(m / p, p);
        let s = stripped(m / p, p);
        assert(p * power(p, e) * s == p * (power(p, e) * s)) by (nonlinear_arith);
        assert(exponent(m, p) == e + 1);
        assert(power(p, e + 1) == p * power(p, e));
        assert(stripped(m, p) == s);
        assert(m == p * (power(p, e) * s));
        assert(m == power(p, e + 1) * s);
    } else {
        let one = power(p, 0);
        assert(exponent(m, p) == 0 && stripped(m, p) == m);
        assert(one * m == m) by (nonlinear_arith)
            requires
                one == 1,
        ;
    }
}

/// Nothing is left to take out.
pub(crate) proof fn stripped_is_not_divisible(m: nat, p: nat)
    requires
        p > 1,
        m > 0,
    ensures
        stripped(m, p) % p != 0,
    decreases m,
{
    if m % p == 0 {
        lemma_div_decreases(m as int, p as int);
        lemma_fundamental_div_mod(m as int, p as int);
        assert(m / p > 0) by (nonlinear_arith)
            requires
                m == p * (m / p),
                m > 0,
                p > 1,
        ;
        stripped_is_not_divisible(m / p, p);
    }
}

proof fn power_is_large(p: nat, e: nat)
    requires
        p > 1,
    ensures
        power(p, e) > e,
        power(p, e) >= power(2, e),
    decreases e,
{
    if e > 0 {
        power_is_large(p, (e - 1) as nat);
        let x = power(p, (e - 1) as nat);
        let y = power(2, (e - 1) as nat);
        assert(p * x >= 2 * x && p * x >= 2 * y) by (nonlinear_arith)
            requires
                p >= 2,
                x >= y,
        ;
    }
}

proof fn power_is_positive(p: nat, e: nat)
    requires
        p > 0,
    ensures
        power(p, e) > 0,
    decreases e,
{
    if e > 0 {
        power_is_positive(p, (e - 1) as nat);
        let x = power(p, (e - 1) as nat);
        assert(p * x > 0) by (nonlinear_arith)
            requires
                p > 0,
                x > 0,
        ;
    }
}

proof fn word_size()
    ensures
        power(2, 64) == 0x1_0000_0000_0000_0000,
{
    reveal_with_fuel(power, 17);
    assert(power(2, 16) == 0x1_0000);
    assert(power(2, 32) == 0x1_0000_0000);
    assert(power(2, 48) == 0x1_0000_0000_0000);
}

proof fn exponent_fits_word(m: nat, p: nat)
    requires
        0 < m < 0x1_0000_0000_0000_0000,
        p > 1,
    ensures
        exponent(m, p) <= 64,
{
    strip_factors(m, p);
    exponent_is_small(m, p);
    let e = exponent(m, p);
    let s = stripped(m, p);
    power_is_large(p, e);
    if e > 64 {
        power_grows(2, 64, e);
        word_size();
        assert(power(p, e) * s >= power(p, e)) by (nonlinear_arith)
            requires
                s >= 1,
                power(p, e) > 0,
        ;
    }
}

pub(crate) proof fn power_grows(p: nat, a: nat, b: nat)
    requires
        p > 1,
        a <= b,
    ensures
        power(p, a) <= power(p, b),
    decreases b,
{
    if a < b {
        power_grows(p, a, (b - 1) as nat);
        power_is_positive(p, (b - 1) as nat);
        let x = power(p, (b - 1) as nat);
        assert(p * x >= x) by (nonlinear_arith)
            requires
                p > 1,
                x > 0,
        ;
    }
}

/// Relative cost of a capture of length `n`, or `None` if `n` has a prime factor above 5.
pub fn smooth_size_cost(n: usize) -> (found: Option<u128>)
    requires
        n > 0,
    ensures
        found is Some <==> is_smooth(n as nat),
        found is Some ==> found->0 == cost(n as nat),
{
    proof {
        exponent_fits_word(n as nat, 2);
        exponent_is_small(n as nat, 2);
    }
    let (odd, _) = strip(n, 2);
    proof {
        exponent_fits_word(odd as nat, 3);
    }
    let (rest, e3) = strip(odd, 3);
    proof {
        exponent_fits_word(rest as nat, 5);
    }
    let (last, e5) = strip(rest, 5);
    if last != 1 {
        return None;
    }
    let share: u128 = 10_000 + 96 * e3 as u128 + 132 * e5 as u128;
    assert(n * share <= 0x1_0000_0000_0000_0000 * 0x1_0000) by (nonlinear_arith)
        requires
            0 <= n < 0x1_0000_0000_0000_0000,
            0 <= share < 0x1_0000,
    ;
    Some(n as u128 * share)
}

// ---------------------------------------------------------------------------
// The search
// ---------------------------------------------------------------------------

/// The longest length worth considering above `n`: 30 percent more samples.
pub open spec fn search_ceiling(n: nat) -> nat {
    n * 13 / 10
}

/// `m` is a smooth length in the search band of `n`.
pub open spec fn is_candidate(n: nat, m: nat) -> bool {
    n <= m <= search_ceiling(n) && is_smooth(m)
}

/// `size` is a smooth length in the search band of `n`, and none there is cheaper.
pub open spec fn is_cheapest(n: nat, size: nat) -> bool {
    if n <= 1 {
        size == 1
    } else {
        &&& is_candidate(n, size)
        &&& forall|m: nat| #[trigger] is_candidate(n, m) ==> cost(size) <= cost(m)
    }
}

/// `best` is a candidate no dearer than `m`, if `m` is one.
spec fn covers(n: nat, best: Option<(u128, usize)>, m: nat) -> bool {
    is_candidate(n, m) ==> best is Some && (best->Some_0).0 <= cost(m)
}

spec fn is_best_so_far(n: nat, best: Option<(u128, usize)>) -> bool {
    best is Some ==> is_candidate(n, (best->Some_0).1 as nat) && (best->Some_0).0 == cost((best->Some_0).1 as nat)
}

/// The length `2^a 3^b 5^c`.
spec fn product(a: nat, b: nat, c: nat) -> nat {
    power(2, a) * power(3, b) * power(5, c)
}

proof fn smooth_is_product(m: nat)
    requires
        is_smooth(m),
    ensures
        exists|a: nat, b: nat, c: nat| m == #[trigger] product(a, b, c),
{
    strip_factors(m, 2);
    let r = stripped(m, 2);
    strip_factors(r, 3);
    let s = stripped(r, 3);
    strip_factors(s, 5);
    let a = exponent(m, 2);
    let b = exponent(r, 3);
    let c = exponent(s, 5);
    let x = power(2, a);
    let y = power(3, b);
    let z = power(5, c);
    assert(x * (y * (z * 1)) == x * y * z) by (nonlinear_arith);
    assert(m == product(a, b, c));
}

proof fn product_grows(a: nat, b: nat, c: nat, d: nat, e: nat, f: nat)
    requires
        a <= d,
        b <= e,
        c <= f,
    ensures
        product(a, b, c) <= product(d, e, f),
{
    power_grows(2, a, d);
    power_grows(3, b, e);
    power_grows(5, c, f);
    let (x, y, z) = (power(2, a), power(3, b), power(5, c));
    let (u, v, w) = (power(2, d), power(3, e), power(5, f));
    assert(x * y <= u * v) by (nonlinear_arith)
        requires
            0 <= x <= u,
            0 <= y <= v,
    ;
    assert(x * y * z <= u * v * w) by (nonlinear_arith)
        requires
            0 <= x * y <= u * v,
            0 <= z <= w,
    ;
}

proof fn product_next(a: nat, b: nat, c: nat)
    ensures
        product(a, b, c + 1) == 5 * product(a, b, c),
        product(a, b + 1, 0) == 3 * product(a, b, 0),
        product(a + 1, 0, 0) == 2 * product(a, 0, 0),
        product(a, b, 0) == power(2, a) * power(3, b),
        product(a, 0, 0) == power(2, a),
        product(a, b, c) > 0,
{
    let (x, y, z) = (power(2, a), power(3, b), power(5, c));
    power_is_positive(2, a);
    power_is_positive(3, b);
    power_is_positive(5, c);
    assert(power(5, c + 1) == 5 * z);
    assert(power(3, b + 1) == 3 * y);
    assert(power(2, a + 1) == 2 * x);
    assert(power(5, 0) == 1 && power(3, 0) == 1);
    assert(x * y * (5 * z) == 5 * (x * y * z)) by (nonlinear_arith);
    assert(x * (3 * y) * 1 == 3 * (x * y * 1)) by (nonlinear_arith);
    assert(x * y * z > 0) by (nonlinear_arith)
        requires
            x > 0,
            y > 0,
            z > 0,
    ;
}

proof fn scale_of(n: nat) -> (r: (nat, nat))
    requires
        n >= 8,
    ensures
        8 <= r.1 <= 15,
        r.1 * power(2, r.0) <= n < (r.1 + 1) * power(2, r.0),
    decreases n,
{
    if n < 16 {
        assert(power(2, 0) == 1);
        assert(n * power(2, 0) == n && (n + 1) * power(2, 0) == n + 1) by (nonlinear_arith)
            requires
                power(2, 0) == 1,
        ;
        (0, n)
    } else {
        let (j, x) = scale_of(n / 2);
        let p = power(2, j);
        assert(power(2, j + 1) == 2 * p);
        assert(x * (2 * p) <= n && n < (x + 1) * (2 * p)) by (nonlinear_arith)
            requires
                x * p <= n / 2,
                n / 2 < (x + 1) * p,
        ;
        (j + 1, x)
    }
}

proof fn doubling_keeps_odd_part(x: nat, j: nat)
    requires
        x > 0,
    ensures
        stripped(x * power(2, j), 2) == stripped(x, 2),
    decreases j,
{
    let p = power(2, j);
    if j == 0 {
        assert(p == 1);
        assert(x * p == x) by (nonlinear_arith)
            requires
                p == 1,
        ;
    } else {
        let q = power(2, (j - 1) as nat);
        doubling_keeps_odd_part(x, (j - 1) as nat);
        power_is_positive(2, (j - 1) as nat);
        assert(x * (2 * q) == 2 * (x * q)) by (nonlinear_arith);
        assert(x * q > 0) by (nonlinear_arith)
            requires
                x > 0,
                q > 0,
        ;
        assert((2 * (x * q)) % 2 == 0);
        assert((2 * (x * q)) / 2 == x * q);
    }
}

proof fn small_smooth_numbers()
    ensures
        is_smooth(1),
        is_smooth(2),
        is_smooth(3),
        is_smooth(4),
        is_smooth(5),
        is_smooth(6),
        is_smooth(8),
        is_smooth(9),
        is_smooth(10),
        is_smooth(12),
        is_smooth(15),
        is_smooth(16),
{
    reveal_with_fuel(stripped, 6);
}

/// There is always a smooth length in the search band.
pub proof fn band_is_never_empty(n: nat)
    requires
        n >= 2,
    ensures
        exists|m: nat| #[trigger] is_candidate(n, m),
{
    small_smooth_numbers();
    if n < 8 {
        if n == 7 {
            assert(is_candidate(7, 8));
        } else {
            assert(is_candidate(n, n));
        }
    } else {
        let (j, x) = scale_of(n);
        let p = power(2, j);
        power_is_positive(2, j);
        let y: nat = if x == 8 {
            9
        } else if x == 9 {
            10
        } else if x <= 11 {
            12
        } else if x <= 14 {
            15
        } else {
            16
        };
        let m = y * p;
        doubling_keeps_odd_part(y, j);
        assert(is_smooth(m));
        assert(n <= m && 10 * m <= 13 * n) by (nonlinear_arith)
            requires
                m == y * p,
                x * p <= n,
                n < (x + 1) * p,
                x + 1 <= y,
                10 * y <= 13 * x,
                p > 0,
        ;
        assert(is_candidate(n, m));
    }
}

/// Rounds `n` up to a length with no prime factor above 5, preferring cheap ones: of all such
/// lengths up to 30 percent above `n` it takes one of lowest cost.
pub fn next_smooth_size(n: usize) -> (size: usize)
    requires
        n <= usize::MAX / 16,
    ensures
        is_cheapest(n as nat, size as nat),
{
    if n <= 1 {
        return 1;
    }
    let ceiling: usize = n * 13 / 10;
    let mut best: Option<(u128, usize)> = None;
    let mut p2: usize = 1;
    let ghost mut a: nat = 0;
    assert(power(2, 0) == 1);
    while p2 <= ceiling
        invariant
            1 < n <= usize::MAX / 16,
            ceiling == search_ceiling(n as nat),
            p2 == power(2, a),
            p2 > 0,
            p2 <= 2 * ceiling,
            is_best_so_far(n as nat, best),
            forall|i: nat, b: nat, c: nat|
                i < a ==> covers(n as nat, best, #[trigger] product(i, b, c)),
        decreases 2 * ceiling + 1 - p2,
    {
        let mut p23: usize = p2;
        let ghost mut b: nat = 0;
        proof {
            product_next(a, 0, 0);
        }
        while p23 <= ceiling
            invariant
                1 < n <= usize::MAX / 16,
                ceiling == search_ceiling(n as nat),
                p23 == product(a, b, 0),
                p23 > 0,
                p23 <= 3 * ceiling,
                is_best_so_far(n as nat, best),
                forall|i: nat, j: nat, c: nat|
                    i < a ==> covers(n as nat, best, #[trigger] product(i, j, c)),
                forall|j: nat, c: nat|
                    j < b ==> covers(n as nat, best, #[trigger] product(a, j, c)),
            decreases 3 * ceiling + 1 - p23,
        {
            let mut cand: usize = p23;
            let ghost mut c: nat = 0;
            while cand < n
                invariant
                    1 < n <= usize::MAX / 16,
                    cand == product(a, b, c),
                    cand > 0,
                    forall|k: nat| k < c ==> #[trigger] product(a, b, k) < n,
                decreases 5 * n - cand,
            {
                proof {
                    product_next(a, b, c);
                    assert forall|k: nat| k < c + 1 implies #[trigger] product(a, b, k) < n by {
                        product_grows(a, b, k, a, b, c);
                    }
                    c = c + 1;
                }
                cand = cand * 5;
            }
            while cand <= ceiling
                invariant
                    1 < n <= usize::MAX / 16,
                    ceiling == search_ceiling(n as nat),
                    n <= cand,
                    cand == product(a, b, c),
                    is_best_so_far(n as nat, best),
                    forall|i: nat, j: nat, k: nat|
                        i < a ==> covers(n as nat, best, #[trigger] product(i, j, k)),
                    forall|j: nat, k: nat|
                        j < b ==> covers(n as nat, best, #[trigger] product(a, j, k)),
                    forall|k: nat| k < c ==> covers(n as nat, best, #[trigger] product(a, b, k)),
                decreases 5 * ceiling + 1 - cand,
            {
                if let Some(price) = smooth_size_cost(cand) {
                    let cheaper: bool = match best {
                        Some((best_price, _)) => price < best_price,
                        None => true,
                    };
                    if cheaper {
                        best = Some((price, cand));
                    }
                }
                proof {
                    product_next(a, b, c);
                    c = c + 1;
                }
                cand = cand * 5;
            }
            proof {
                assert forall|j: nat, k: nat| j < b + 1 implies covers(
                    n as nat,
                    best,
                    #[trigger] product(a, j, k),
                ) by {
                    if j == b && k >= c {
                        product_grows(a, b, c, a, b, k);
                    }
                }
                product_next(a, b, 0);
                b = b + 1;
            }
            p23 = p23 * 3;
        }
        proof {
            assert forall|i: nat, j: nat, k: nat| i < a + 1 implies covers(
                n as nat,
                best,
                #[trigger] product(i, j, k),
            ) by {
                if i == a && j >= b {
                    product_grows(a, b, 0, a, j, k);
                }
            }
            product_next(a, 0, 0);
            a = a + 1;
        }
        p2 = p2 * 2;
    }
    proof {
        assert forall|m: nat| #[trigger] is_candidate(n as nat, m) implies covers(
            n as nat,
            best,
            m,
        ) by {
            smooth_is_product(m);
            let (i, j, k) = choose|i: nat, j: nat, k: nat| m == #[trigger] product(i, j, k);
            if i >= a {
                product_next(a, 0, 0);
                product_grows(a, 0, 0, i, j, k);
            }
        }
        band_is_never_empty(n as nat);
    }
    match best {
        Some((_, size)) => size,
        None => n,
    }
}

/// A smooth size is made of twos, threes and fives.
pub proof fn smooth_sizes_are_products(m: nat)
    requires
        is_smooth(m),
    ensures
        exists|a: nat, b: nat, c: nat| m == #[trigger] (power(2, a) * power(3, b) * power(5, c)),
        m > 0,
{
    smooth_is_product(m);
    let (a, b, c) = choose|a: nat, b: nat, c: nat| m == #[trigger] product(a, b, c);
    assert(m == power(2, a) * power(3, b) * power(5, c));
    product_next(a, b, c);
}

/// A size costs at least its length, in ten-thousandths of it, and a size twice as long costs twice
/// as much: a two is free, threes and fives are not. The cost of a size without them is its length.
pub proof fn twos_are_free(m: nat)
    requires
        m > 0,
    ensures
        cost(m) >= 10_000 * m,
        cost(2 * m) == 2 * cost(m),
        exponent3(m) == 0 && exponent5(m) == 0 ==> cost(m) == 10_000 * m,
        exponent3(m) > 0 || exponent5(m) > 0 ==> cost(m) > 10_000 * m,
        cost(1) == 10_000,
{
    let d = 2 * m;
    assert(d % 2 == 0 && d / 2 == m);
    assert(stripped(d, 2) == stripped(m, 2));
    let (t, f) = (exponent3(m), exponent5(m));
    let each = 10_000 + 96 * t + 132 * f;
    assert(d * each == 2 * (m * each)) by (nonlinear_arith)
        requires
            d == 2 * m,
    ;
    assert(m * each == 10_000 * m + m * (96 * t + 132 * f)) by (nonlinear_arith)
        requires
            each == 10_000 + 96 * t + 132 * f,
    ;
    assert(m * (96 * t + 132 * f) >= 0) by (nonlinear_arith);
    assert(t > 0 || f > 0 ==> m * (96 * t + 132 * f) > 0) by (nonlinear_arith)
        requires
            m > 0,
    ;
    assert(t == 0 && f == 0 ==> m * (96 * t + 132 * f) == 0) by (nonlinear_arith);
    assert(1nat % 2 != 0 && 1nat % 3 != 0 && 1nat % 5 != 0);
}

/// A five costs more than a three: for its length, a size with a three in place of another's five is
/// the cheaper.
pub proof fn fives_cost_more_than_threes(a: nat, b: nat)
    requires
        a > 0,
        exponent3(a) == exponent3(b) + 1,
        exponent5(b) == exponent5(a) + 1,
    ensures
        b > 0 ==> cost(a) * b < cost(b) * a,
{
    let (x, y) = (
        10_000 + 96 * exponent3(a) + 132 * exponent5(a),
        10_000 + 96 * exponent3(b) + 132 * exponent5(b),
    );
    assert(x < y);
    if b > 0 {
        assert((a * x) * b < (b * y) * a) by (nonlinear_arith)
            requires
                x < y,
                a > 0,
                b > 0,
        ;
    }
}

/// Taking a prime out of a multiple of another leaves the same multiple of what is left, and takes
/// it out as often.
proof fn stripping_passes_other_primes(m: nat, p: nat, q: nat)
    requires
        m > 0,
        (p == 3 && q == 2) || (p == 5 && q == 2) || (p == 5 && q == 3),
    ensures
        stripped(p * m, q) == p * stripped(m, q),
        exponent(p * m, q) == exponent(m, q),
    decreases m,
{
    assert((p * m) % q == 0 <==> m % q == 0);
    if m % q == 0 {
        lemma_div_decreases(m as int, q as int);
        let h = m / q;
        assert(m == q * h);
        assert((p * m) / q == p * h);
        assert(h > 0);
        stripping_passes_other_primes(h, p, q);
        assert(p * m > 0);
    }
}

/// A size stays smooth, and one that is not stays so, when it is made two, three or five times as
/// long; one is smooth. So every product of twos, threes and fives is.
///
/// What a three or a five adds to the cost of a sample is the same in every size.
pub proof fn small_factors_keep_a_size_smooth(m: nat)
    requires
        m > 0,
    ensures
        is_smooth(1),
        is_smooth(2 * m) == is_smooth(m),
        is_smooth(3 * m) == is_smooth(m),
        is_smooth(5 * m) == is_smooth(m),
        cost(3 * m) == 3 * cost(m) + 96 * (3 * m),
        cost(5 * m) == 5 * cost(m) + 132 * (5 * m),
{
    small_smooth_numbers();
    let r = stripped(m, 2);
    exponent_is_small(m, 2);
    assert((2 * m) % 2 == 0 && (2 * m) / 2 == m);
    assert(stripped(2 * m, 2) == r);
    stripping_passes_other_primes(m, 3, 2);
    assert((3 * r) % 3 == 0 && (3 * r) / 3 == r);
    assert(stripped(3 * r, 3) == stripped(r, 3));
    assert(exponent(3 * r, 3) == 1 + exponent(r, 3));
    stripping_passes_other_primes(m, 5, 2);
    stripping_passes_other_primes(r, 5, 3);
    let t = stripped(r, 3);
    exponent_is_small(r, 3);
    assert((5 * t) % 5 == 0 && (5 * t) / 5 == t);
    assert(stripped(5 * t, 5) == stripped(t, 5));
    assert(exponent(5 * t, 5) == 1 + exponent(t, 5));
    let each = 10_000 + 96 * exponent3(m) + 132 * exponent5(m);
    assert((3 * m) * (each + 96) == 3 * (m * each) + 96 * (3 * m)) by (nonlinear_arith);
    assert((5 * m) * (each + 132) == 5 * (m * each) + 132 * (5 * m)) by (nonlinear_arith);
}

/// The size chosen for a length holds it, is smooth, and is at most three tenths longer; no smooth
/// size in that band is cheaper. A length of nothing or one takes a size of one.
pub proof fn chosen_sizes_hold_the_length(n: nat, size: nat, other: nat)
    requires
        is_cheapest(n, size),
    ensures
        size >= n,
        size >= 1,
        n >= 2 ==> 10 * size <= 13 * n && is_smooth(size),
        n >= 2 && n <= other && 10 * other <= 13 * n && is_smooth(other) ==> cost(size) <= cost(
            other,
        ),
        n <= 1 ==> size == 1,
{
    if n >= 2 && n <= other && 10 * other <= 13 * n && is_smooth(other) {
        assert(other <= search_ceiling(n));
        assert(is_candidate(n, other));
    }
}

} // verus!
