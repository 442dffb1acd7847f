//! Why a spectrum reads in decibels of full scale: what each window multiplies the samples by, and
//! how its coherent gain makes up for it.

use vstd::prelude::*;
use crate::spectrum::{FftWindow, LeakageZone};

verus! {

impl FftWindow {
    /// The window as a sum of cosines of whole multiples of a turn over the record, the constant
    /// term first, in thousand-millionths.
    pub open spec fn cosine_terms(self) -> Seq<int> {
        match self {
            FftWindow::Hanning => seq![500_000_000, -500_000_000],
            FftWindow::Hamming => seq![540_000_000, -460_000_000],
            FftWindow::BlackmanHarris => seq![358_750_000, -488_290_000, 141_280_000, -11_680_000],
            FftWindow::FlatTop => {
                seq![215_578_950, -416_631_580, 277_263_158, -83_578_947, 6_947_368]
            },
            FftWindow::Rectangular => seq![1_000_000_000],
        }
    }
}

/// The first `k` terms of a cosine sum at sample `i`. `cosine(j, i)` is the cosine of `j` turns
/// over the record at that sample.
pub open spec fn coefficient(
    terms: Seq<int>,
    cosine: spec_fn(int, int) -> int,
    k: int,
    i: int,
) -> int
    decreases k,
{
    if k <= 0 {
        0
    } else {
        coefficient(terms, cosine, k - 1, i) + terms[k - 1] * cosine(k - 1, i)
    }
}

/// The sum of the first `k` terms over the first `n` samples.
pub open spec fn sum_of_coefficients(
    terms: Seq<int>,
    cosine: spec_fn(int, int) -> int,
    k: int,
    n: int,
) -> int
    decreases n,
{
    if n <= 0 {
        0
    } else {
        sum_of_coefficients(terms, cosine, k, n - 1) + coefficient(terms, cosine, k, n - 1)
    }
}

/// The sum of one cosine over the first `n` samples.
pub open spec fn sum_of_cosine(cosine: spec_fn(int, int) -> int, j: int, n: int) -> int
    decreases n,
{
    if n <= 0 {
        0
    } else {
        sum_of_cosine(cosine, j, n - 1) + cosine(j, n - 1)
    }
}

/// `cosine` is a table of cosines over a record of `n` samples, in a unit of its own: no turns
/// stay at one, and any other number of turns averages out over the record.
pub open spec fn is_cosine_table(cosine: spec_fn(int, int) -> int, unit: int, n: int) -> bool {
    &&& forall|i: int| #[trigger] cosine(0, i) == unit
    &&& forall|j: int| 0 < j < 5 ==> #[trigger] sum_of_cosine(cosine, j, n) == 0
}

proof fn last_term_sums_apart(terms: Seq<int>, cosine: spec_fn(int, int) -> int, k: int, n: int)
    requires
        k > 0,
    ensures
        sum_of_coefficients(terms, cosine, k, n) == sum_of_coefficients(terms, cosine, k - 1, n)
            + terms[k - 1] * sum_of_cosine(cosine, k - 1, n),
    decreases n,
{
    if n > 0 {
        last_term_sums_apart(terms, cosine, k, n - 1);
        let (a, s, c) = (
            terms[k - 1],
            sum_of_cosine(cosine, k - 1, n - 1),
            cosine(k - 1, n - 1),
        );
        assert(a * (s + c) == a * s + a * c) by (nonlinear_arith);
    } else {
        assert(terms[k - 1] * 0 == 0);
    }
}

proof fn constant_sums_up(cosine: spec_fn(int, int) -> int, unit: int, n: int)
    requires
        forall|i: int| #[trigger] cosine(0, i) == unit,
        n >= 0,
    ensures
        sum_of_cosine(cosine, 0, n) == n * unit,
    decreases n,
{
    if n > 0 {
        constant_sums_up(cosine, unit, n - 1);
        assert(n * unit == (n - 1) * unit + unit) by (nonlinear_arith);
    } else {
        assert(0 * unit == 0);
    }
}

proof fn nothing_sums_to_nothing(terms: Seq<int>, cosine: spec_fn(int, int) -> int, n: int)
    ensures
        sum_of_coefficients(terms, cosine, 0, n) == 0,
    decreases n,
{
    if n > 0 {
        nothing_sums_to_nothing(terms, cosine, n - 1);
    }
}

proof fn terms_average_to_the_first(
    terms: Seq<int>,
    cosine: spec_fn(int, int) -> int,
    unit: int,
    k: int,
    n: int,
)
    requires
        is_cosine_table(cosine, unit, n),
        n >= 0,
        1 <= k <= 5,
    ensures
        sum_of_coefficients(terms, cosine, k, n) == terms[0] * (n * unit),
    decreases k,
{
    last_term_sums_apart(terms, cosine, k, n);
    if k == 1 {
        nothing_sums_to_nothing(terms, cosine, n);
        constant_sums_up(cosine, unit, n);
    } else {
        terms_average_to_the_first(terms, cosine, unit, k - 1, n);
        assert(sum_of_cosine(cosine, k - 1, n) == 0);
        assert(terms[k - 1] * 0 == 0);
    }
}

/// The coherent gain of a window is the mean of what it multiplies the samples of a record by.
pub proof fn coherent_gain_is_the_mean(
    window: FftWindow,
    cosine: spec_fn(int, int) -> int,
    unit: int,
    n: int,
)
    requires
        is_cosine_table(cosine, unit, n),
        n >= 0,
    ensures
        ({
            let terms = window.cosine_terms();
            sum_of_coefficients(terms, cosine, terms.len() as int, n) == (n * unit) * (10
                * window.gain_e8())
        }),
{
    let terms = window.cosine_terms();
    terms_average_to_the_first(terms, cosine, unit, terms.len() as int, n);
    assert(terms[0] == 10 * window.gain_e8());
    assert(terms[0] * (n * unit) == (n * unit) * terms[0]) by (nonlinear_arith);
}

/// A steady tone reads the same level under every window: what it adds up to after windowing, over
/// the window's coherent gain, does not depend on the window.
pub proof fn tones_read_alike_under_every_window(
    window: FftWindow,
    other: FftWindow,
    cosine: spec_fn(int, int) -> int,
    unit: int,
    n: int,
)
    requires
        is_cosine_table(cosine, unit, n),
        n >= 0,
    ensures
        ({
            let (a, b) = (window.cosine_terms(), other.cosine_terms());
            sum_of_coefficients(a, cosine, a.len() as int, n) * other.gain_e8()
                == sum_of_coefficients(b, cosine, b.len() as int, n) * window.gain_e8()
        }),
{
    coherent_gain_is_the_mean(window, cosine, unit, n);
    coherent_gain_is_the_mean(other, cosine, unit, n);
    let (m, g, h) = (n * unit, window.gain_e8(), other.gain_e8());
    assert((m * (10 * g)) * h == (m * (10 * h)) * g) by (nonlinear_arith);
}

/// The terms with alternating signs added up: the cosine sum half-way through the record, where
/// every second cosine is minus one.
pub open spec fn middle_value(terms: Seq<int>, k: int) -> int
    decreases k,
{
    if k <= 0 {
        0
    } else {
        middle_value(terms, k - 1) + (if k % 2 == 1 {
            terms[k - 1]
        } else {
            -terms[k - 1]
        })
    }
}

/// The terms added up: the cosine sum at the start of the record, where every cosine is one.
pub open spec fn start_value(terms: Seq<int>, k: int) -> int
    decreases k,
{
    if k <= 0 {
        0
    } else {
        start_value(terms, k - 1) + terms[k - 1]
    }
}

/// Every window leaves the middle of the record as it is, to within three thousand-millionths.
/// The rectangular one does so throughout; the others start next to nothing: the Hanning window at
/// nothing, the Hamming window at eight hundredths, the others within a thousandth of nothing.
/// Their terms change sign in turn.
pub proof fn windows_peak_at_one(window: FftWindow, k: int)
    ensures
        ({
            let terms = window.cosine_terms();
            &&& 0 <= middle_value(terms, terms.len() as int) - 1_000_000_000 <= 3
            &&& window == FftWindow::Hanning ==> start_value(terms, 2) == 0
            &&& window == FftWindow::Hamming ==> start_value(terms, 2) == 80_000_000
            &&& window == FftWindow::BlackmanHarris || window == FftWindow::FlatTop
                ==> -1_000_000 < start_value(terms, terms.len() as int) < 1_000_000
            &&& 0 < k < terms.len() ==> (terms[k - 1] > 0 <==> terms[k] < 0)
            &&& terms[0] > 0
        }),
        FftWindow::Rectangular.cosine_terms() == seq![1_000_000_000int],
{
    reveal_with_fuel(middle_value, 6);
    reveal_with_fuel(start_value, 6);
}

/// Only the rectangular window, which tapers nothing, has a gain of one; a window that tapers has
/// less, and the flatter its top the less.
pub proof fn tapering_costs_gain(window: FftWindow)
    ensures
        0 < window.gain_e8() <= 100_000_000,
        window.gain_e8() == 100_000_000 <==> window == FftWindow::Rectangular,
        FftWindow::FlatTop.gain_e8() < FftWindow::BlackmanHarris.gain_e8(),
        FftWindow::BlackmanHarris.gain_e8() < FftWindow::Hanning.gain_e8(),
        FftWindow::Hanning.gain_e8() < FftWindow::Hamming.gain_e8(),
{
}

/// How deep leakage is at a distance, as far as it does not take a logarithm: nothing inside the
/// main lobe, the plateau outside, and where it rolls off at least the plateau.
pub open spec fn assured_depth(zone: LeakageZone) -> int {
    match zone {
        LeakageZone::MainLobe => 0,
        LeakageZone::Plateau { db } => db as int,
        LeakageZone::RollOff { db, .. } => db as int,
    }
}

/// Leakage is the same on both sides of a tone, and never rises with the distance from it. It is
/// none of it counted within a main lobe at least as wide as the window has terms and at most a bin
/// wider, where the plateau starts; the roll-off starts beyond the plateau from the plateau's
/// depth.
pub proof fn leakage_falls_on_both_sides(window: FftWindow, near: int, far: int)
    requires
        0 <= near <= far,
    ensures
        window.leakage_at(-far) == window.leakage_at(far),
        0 <= assured_depth(window.leakage_at(near)) <= assured_depth(window.leakage_at(far)),
        near <= window.cosine_terms().len() * 1_000_000 ==> window.leakage_at(near) is MainLobe,
        far > (window.cosine_terms().len() + 1) * 1_000_000 ==> !(window.leakage_at(
            far,
        ) is MainLobe),
        window.leakage_at(far) is RollOff ==> ({
            let zone = window.leakage_at(far);
            &&& zone->from < far
            &&& zone->rolloff_db >= 0
            &&& window.leakage_at(zone->from as int) == (LeakageZone::Plateau { db: zone->RollOff_db })
        }),
{
}

/// The windows trade the width of their main lobe for the depth of their sidelobes: from the
/// rectangular one to the flat-top each has deeper sidelobes, and none a narrower lobe. Only the
/// Hanning window, which starts at nothing, rolls off faster than six decibels an octave.
pub proof fn wider_lobes_leak_less(a: FftWindow, b: FftWindow)
    ensures
        a.leakage().plateau_db < b.leakage().plateau_db ==> a.leakage().lobe <= b.leakage().lobe,
        FftWindow::Rectangular.leakage().plateau_db < FftWindow::Hanning.leakage().plateau_db,
        FftWindow::Hanning.leakage().plateau_db < FftWindow::Hamming.leakage().plateau_db,
        FftWindow::Hamming.leakage().plateau_db < FftWindow::BlackmanHarris.leakage().plateau_db,
        FftWindow::BlackmanHarris.leakage().plateau_db < FftWindow::FlatTop.leakage().plateau_db,
        0 <= a.leakage().rolloff_db,
        a.leakage().rolloff_db > 6_000_000 <==> a == FftWindow::Hanning,
        a.leakage().lobe < a.leakage().plateau_to,
{
}

impl FftWindow {
    /// The highest sidelobe of the window's transform, in millionths of a decibel below its peak.
    pub open spec fn highest_sidelobe(self) -> int {
        match self {
            FftWindow::Rectangular => 13_260_000,
            FftWindow::Hanning => 31_470_000,
            FftWindow::Hamming => 42_680_000,
            FftWindow::BlackmanHarris => 92_010_000,
            FftWindow::FlatTop => 93_600_000,
        }
    }
}

/// The plateau of a window is its highest sidelobe to a tenth of a decibel. It starts at the edge of
/// the main lobe and lasts one bin, of the Hamming window, whose first sidelobes are not its
/// highest, three. The rectangular window rolls off by six decibels an octave, the Hanning window by
/// at most eighteen and at least seventeen, and the others by half of six or a little more, or not
/// at all.
pub proof fn plateaus_are_the_highest_sidelobes(window: FftWindow)
    ensures
        ({
            let shape = window.leakage();
            let terms = window.cosine_terms().len() as int;
            &&& -100_000 <= shape.plateau_db - window.highest_sidelobe() <= 100_000
            &&& shape.plateau_to - shape.lobe == if window == FftWindow::Hamming {
                3_000_000int
            } else {
                1_000_000
            }
            &&& shape.lobe == if terms <= 2 {
                terms * 1_000_000
            } else {
                (terms + 1) * 1_000_000
            }
            &&& window == FftWindow::Rectangular ==> shape.rolloff_db == 6_000_000
            &&& window == FftWindow::Hanning ==> 17_000_000 <= shape.rolloff_db <= 18_000_000
            &&& window == FftWindow::Hamming || window == FftWindow::BlackmanHarris ==> 3_000_000
                <= shape.rolloff_db <= 3_500_000
            &&& window == FftWindow::FlatTop ==> shape.rolloff_db == 0
        }),
{
}

} // verus!
