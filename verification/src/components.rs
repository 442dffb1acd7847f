//! Parameters of the RF components, and the parts of their behaviour that are plain arithmetic
//! on those parameters: table interpolation, filter orders, mixing products, phase and delay.

use vstd::prelude::*;
use crate::units::{within_limit, Micro, Ratio, MICRO_LIMIT, UNIT};

verus! {

// ---------------------------------------------------------------------------
// Table interpolation
// ---------------------------------------------------------------------------

/// The height at `f` of the straight line through `(f0, v0)` and `(f1, v1)`.
pub open spec fn line_at(f0: int, v0: int, f1: int, v1: int, f: int) -> Ratio
    recommends
        f0 < f1,
{
    Ratio {
        over: (v0 * (f1 - f0) + (f - f0) * (v1 - v0)) as i128,
        under: (f1 - f0) as i128,
    }
}

/// A whole number of millionths.
pub open spec fn whole(v: int) -> Ratio {
    Ratio { over: v as i128, under: 1 }
}

/// Whether segment `i` of the table is a rising step in frequency that spans `f`.
pub open spec fn spans(table: Seq<(Micro, Micro)>, f: int, i: int) -> bool {
    &&& 0 <= i < table.len() - 1
    &&& table[i].0 <= f <= table[i + 1].0
    &&& table[i].0 < table[i + 1].0
}

/// The value of a `(frequency, value)` table at `f`: linear between its points, held constant
/// beyond both ends, zero for an empty table.
pub open spec fn interpolated(table: Seq<(Micro, Micro)>, f: int) -> Ratio {
    if table.len() == 0 {
        whole(0)
    } else if table.len() == 1 || f <= table[0].0 {
        whole(table[0].1 as int)
    } else if f >= table.last().0 {
        whole(table.last().1 as int)
    } else {
        let i = first_span(table, f, 0);
        if i < table.len() - 1 {
            line_at(
                table[i].0 as int,
                table[i].1 as int,
                table[i + 1].0 as int,
                table[i + 1].1 as int,
                f,
            )
        } else {
            whole(table.last().1 as int)
        }
    }
}

/// The first segment from `i` on that spans `f`, or the number of segments where none does.
pub open spec fn first_span(table: Seq<(Micro, Micro)>, f: int, i: int) -> int
    decreases table.len() - i,
{
    if i >= table.len() - 1 {
        table.len() - 1
    } else if spans(table, f, i) {
        i
    } else {
        first_span(table, f, i + 1)
    }
}

/// Every entry of the table is small enough for exact interpolation.
pub open spec fn table_within_limit(table: Seq<(Micro, Micro)>) -> bool {
    forall|i: int|
        0 <= i < table.len() ==> within_limit(#[trigger] table[i].0) && within_limit(table[i].1)
}

/// The points of the table come in order of frequency.
pub open spec fn table_sorted(table: Seq<(Micro, Micro)>) -> bool {
    forall|i: int, j: int| 0 <= i <= j < table.len() ==> (#[trigger] table[i]).0 <= (#[trigger] table[j]).0
}

proof fn line_stays_between(f0: int, v0: int, f1: int, v1: int, f: int)
    requires
        -MICRO_LIMIT <= f0 < f1 <= MICRO_LIMIT,
        f0 <= f <= f1,
        -MICRO_LIMIT <= v0 <= MICRO_LIMIT,
        -MICRO_LIMIT <= v1 <= MICRO_LIMIT,
    ensures
        ({
            let (a, d, h) = (f - f0, f1 - f0, v1 - v0);
            let over = v0 * d + a * h;
            &&& line_at(f0, v0, f1, v1, f).over == over
            &&& line_at(f0, v0, f1, v1, f).under == d
            &&& v0 <= v1 ==> v0 * d <= over <= v1 * d
            &&& v1 <= v0 ==> v1 * d <= over <= v0 * d
            &&& -MICRO_LIMIT * d <= v0 * d <= MICRO_LIMIT * d
            &&& -MICRO_LIMIT * (2 * MICRO_LIMIT) <= v0 * d <= MICRO_LIMIT * (2 * MICRO_LIMIT)
            &&& -MICRO_LIMIT * (2 * MICRO_LIMIT) <= over <= MICRO_LIMIT * (2 * MICRO_LIMIT)
            &&& -MICRO_LIMIT * (4 * MICRO_LIMIT) <= a * h <= MICRO_LIMIT * (4 * MICRO_LIMIT)
        }),
{
    let (a, d, h) = (f - f0, f1 - f0, v1 - v0);
    let m = MICRO_LIMIT as int;
    assert(v1 * d == v0 * d + d * h) by (nonlinear_arith)
        requires
            h == v1 - v0,
    ;
    assert(-m * d <= v0 * d <= m * d && -m * d <= v1 * d <= m * d) by (nonlinear_arith)
        requires
            -m <= v0 <= m,
            -m <= v1 <= m,
            d > 0,
    ;
    assert(m * d <= m * (2 * m)) by (nonlinear_arith)
        requires
            0 < d <= 2 * m,
            m > 0,
    ;
    assert(-m * d == -(m * d)) by (nonlinear_arith);
    if h >= 0 {
        assert(0 <= a * h <= d * h) by (nonlinear_arith)
            requires
                0 <= a <= d,
                h >= 0,
        ;
    } else {
        assert(d * h <= a * h <= 0) by (nonlinear_arith)
            requires
                0 <= a <= d,
                h < 0,
        ;
    }
}

proof fn first_span_bounds(table: Seq<(Micro, Micro)>, f: int, i: int)
    requires
        0 <= i,
        i < table.len(),
    ensures
        i <= first_span(table, f, i) <= table.len() - 1,
        first_span(table, f, i) < table.len() - 1 ==> spans(table, f, first_span(table, f, i)),
        forall|j: int| i <= j < first_span(table, f, i) ==> !spans(table, f, j),
    decreases table.len() - i,
{
    if i < table.len() - 1 && !spans(table, f, i) {
        first_span_bounds(table, f, i + 1);
    }
}

/// Linear interpolation over a sorted (frequency, value) table, clamped at both ends.
pub fn interp_table(table: &Vec<(Micro, Micro)>, freq_mhz: Micro) -> (value: Ratio)
    requires
        table_within_limit(table@),
        within_limit(freq_mhz),
    ensures
        value == interpolated(table@, freq_mhz as int),
{
    let n: usize = table.len();
    if n == 0 {
        return Ratio { over: 0, under: 1 };
    }
    if n == 1 || freq_mhz <= table[0].0 {
        return Ratio { over: table[0].1 as i128, under: 1 };
    }
    let last: Ratio = Ratio { over: table[n - 1].1 as i128, under: 1 };
    if freq_mhz >= table[n - 1].0 {
        return last;
    }
    let mut i: usize = 0;
    while i < n - 1
        invariant
            n == table.len(),
            n >= 2,
            i <= n - 1,
            table_within_limit(table@),
            within_limit(freq_mhz),
            table[0].0 < freq_mhz < table[n - 1].0,
            last == whole(table[n - 1].1 as int),
            first_span(table@, freq_mhz as int, 0) == first_span(table@, freq_mhz as int, i as int),
        decreases n - i,
    {
        let (f0, v0) = table[i];
        let (f1, v1) = table[i + 1];
        if freq_mhz >= f0 && freq_mhz <= f1 && f1 > f0 {
            let ghost t = table@;
            assert(spans(t, freq_mhz as int, i as int));
            assert(within_limit(t[i as int].0) && within_limit(t[i as int].1));
            assert(within_limit(t[i + 1].0) && within_limit(t[i + 1].1));
            proof {
                line_stays_between(f0 as int, v0 as int, f1 as int, v1 as int, freq_mhz as int);
            }
            let run: i128 = freq_mhz as i128 - f0 as i128;
            let rise: i128 = v1 as i128 - v0 as i128;
            let span: i128 = f1 as i128 - f0 as i128;
            return Ratio { over: v0 as i128 * span + run * rise, under: span };
        }
        assert(!spans(table@, freq_mhz as int, i as int));
        i += 1;
    }
    last
}

/// At a point of a strictly increasing table, interpolation returns that point's value.
pub proof fn interpolation_passes_through_points(table: Seq<(Micro, Micro)>, k: int)
    requires
        0 <= k < table.len(),
        table_within_limit(table),
        forall|i: int, j: int| 0 <= i < j < table.len() ==> (#[trigger] table[i]).0 < (#[trigger] table[j]).0,
    ensures
        interpolated(table, table[k].0 as int).wf(),
        interpolated(table, table[k].0 as int).equals(table[k].1 as int, 1),
{
    let f = table[k].0 as int;
    if 0 < k < table.len() - 1 {
        first_span_bounds(table, f, 0);
        assert(spans(table, f, k - 1));
        let i = first_span(table, f, 0);
        assert(i == k - 1) by {
            if i < k - 1 {
                assert(table[i + 1].0 < table[k].0);
            }
        }
        let (f0, v0) = (table[k - 1].0 as int, table[k - 1].1 as int);
        let (f1, v1) = (table[k].0 as int, table[k].1 as int);
        assert(within_limit(table[k - 1].0) && within_limit(table[k - 1].1));
        assert(within_limit(table[k].0) && within_limit(table[k].1));
        line_stays_between(f0, v0, f1, v1, f);
        let d = f1 - f0;
        assert(v0 * d + d * (v1 - v0) == v1 * d) by (nonlinear_arith);
    }
}

/// Interpolation never leaves the range of the table's values.
pub proof fn interpolation_stays_in_range(table: Seq<(Micro, Micro)>, f: int, lo: int, hi: int)
    requires
        table.len() > 0,
        table_within_limit(table),
        forall|i: int| 0 <= i < table.len() ==> lo <= (#[trigger] table[i]).1 <= hi,
    ensures
        interpolated(table, f).wf(),
        lo * interpolated(table, f).under <= interpolated(table, f).over <= hi * interpolated(
            table,
            f,
        ).under,
        interpolated(table, f).under <= 2 * MICRO_LIMIT,
        -MICRO_LIMIT * (2 * MICRO_LIMIT) <= interpolated(table, f).over <= MICRO_LIMIT * (2
            * MICRO_LIMIT),
{
    assert(lo <= table[0].1 <= hi && lo <= table.last().1 <= hi);
    let value = interpolated(table, f);
    assert(value.under == 1 ==> lo * value.under == lo && hi * value.under == hi)
        by (nonlinear_arith);
    assert(within_limit(table[0].0) && within_limit(table[0].1));
    assert(within_limit(table[table.len() - 1].0) && within_limit(table[table.len() - 1].1));
    if table.len() > 1 && table[0].0 < f < table.last().0 {
        first_span_bounds(table, f, 0);
        let i = first_span(table, f, 0);
        if i < table.len() - 1 {
            assert(lo <= table[i].1 <= hi && lo <= table[i + 1].1 <= hi);
            assert(within_limit(table[i].0) && within_limit(table[i].1));
            assert(within_limit(table[i + 1].0) && within_limit(table[i + 1].1));
            let (v0, v1) = (table[i].1 as int, table[i + 1].1 as int);
            let d = table[i + 1].0 - table[i].0;
            line_stays_between(table[i].0 as int, v0, table[i + 1].0 as int, v1, f);
            assert(lo * d <= v0 * d <= hi * d && lo * d <= v1 * d <= hi * d) by (nonlinear_arith)
                requires
                    lo <= v0 <= hi,
                    lo <= v1 <= hi,
                    d > 0,
            ;
        }
    }
}

/// On a sorted table every frequency strictly inside it falls on some segment, so
/// interpolation never has to fall back to the last value there.
pub proof fn sorted_table_is_spanned(table: Seq<(Micro, Micro)>, f: int)
    requires
        table.len() > 1,
        table_sorted(table),
        table[0].0 < f < table.last().0,
    ensures
        first_span(table, f, 0) < table.len() - 1,
{
    first_span_bounds(table, f, 0);
    if first_span(table, f, 0) == table.len() - 1 {
        no_span_keeps_below(table, f, table.len() - 1);
    }
}

proof fn no_span_keeps_below(table: Seq<(Micro, Micro)>, f: int, k: int)
    requires
        0 <= k < table.len(),
        table_sorted(table),
        table[0].0 < f,
        forall|j: int| 0 <= j < k ==> !spans(table, f, j),
    ensures
        table[k].0 < f,
    decreases k,
{
    if k > 0 {
        no_span_keeps_below(table, f, k - 1);
        assert(!spans(table, f, k - 1));
        assert(table[k - 1].0 <= table[k].0);
    }
}

// ---------------------------------------------------------------------------
// Balun
// ---------------------------------------------------------------------------

/// A balun transformer (e.g. Mini-Circuits TCM2-33WX+).
#[derive(Clone, Debug)]
pub struct BalunModel {
    pub name: String,
    /// Insertion loss lookup table: (frequency_mhz, insertion_loss_db).
    pub il_table: Vec<(Micro, Micro)>,
    /// Minimum operating frequency in MHz.
    pub min_freq_mhz: Micro,
    /// Maximum operating frequency in MHz.
    pub max_freq_mhz: Micro,
    /// Amplitude imbalance between the two differential arms, in dB.
    pub amplitude_imbalance_db: Micro,
    /// Phase imbalance from the ideal 180 degrees, in degrees.
    pub phase_imbalance_deg: Micro,
}

/// The datasheet loss of the TCM2-33WX+.
pub open spec fn tcm2_33wx_losses() -> Seq<(Micro, Micro)> {
    seq![
        (10_000_000, 870_000),
        (100_000_000, 780_000),
        (400_000_000, 950_000),
        (700_000_000, 1_120_000),
        (1_000_000_000, 1_300_000),
        (1_600_000_000, 1_720_000),
        (2_000_000_000, 2_010_000),
        (2_500_000_000, 2_460_000),
        (2_800_000_000, 2_740_000),
        (3_000_000_000, 2_930_000),
    ]
}

impl Default for BalunModel {
    /// Mini-Circuits TCM2-33WX+ (10 MHz - 3 GHz).
    fn default() -> (model: Self)
        ensures
            model.name@ == "TCM2-33WX+"@,
            model.il_table@ == tcm2_33wx_losses(),
            model.min_freq_mhz == 10 * UNIT,
            model.max_freq_mhz == 3000 * UNIT,
            model.amplitude_imbalance_db == 300_000,
            model.phase_imbalance_deg == 3 * UNIT,
    {
        let il_table: Vec<(Micro, Micro)> = vec![
            (10_000_000, 870_000),
            (100_000_000, 780_000),
            (400_000_000, 950_000),
            (700_000_000, 1_120_000),
            (1_000_000_000, 1_300_000),
            (1_600_000_000, 1_720_000),
            (2_000_000_000, 2_010_000),
            (2_500_000_000, 2_460_000),
            (2_800_000_000, 2_740_000),
            (3_000_000_000, 2_930_000),
        ];
        assert(il_table@ =~= tcm2_33wx_losses());
        BalunModel {
            name: "TCM2-33WX+".to_owned(),
            il_table,
            min_freq_mhz: 10_000_000,
            max_freq_mhz: 3_000_000_000,
            amplitude_imbalance_db: 300_000,
            phase_imbalance_deg: 3_000_000,
        }
    }
}

impl BalunModel {
    /// In-band insertion loss from the datasheet table, without the band-edge roll-off.
    pub fn table_loss_at(&self, freq_mhz: Micro) -> (loss_db: Ratio)
        requires
            table_within_limit(self.il_table@),
            within_limit(freq_mhz),
        ensures
            loss_db == interpolated(self.il_table@, freq_mhz as int),
    {
        interp_table(&self.il_table, freq_mhz)
    }
}

// ---------------------------------------------------------------------------
// Filters
// ---------------------------------------------------------------------------

/// Which band a filter passes.
#[derive(Clone, Copy, Debug, PartialEq, Eq, Structural)]
pub enum FilterType {
    LowPass,
    HighPass,
    BandPass,
}

impl FilterType {
    pub open spec fn label_text(self) -> Seq<char> {
        match self {
            FilterType::LowPass => "Low-Pass"@,
            FilterType::HighPass => "High-Pass"@,
            FilterType::BandPass => "Band-Pass"@,
        }
    }

    /// Name shown to the user.
    pub fn label(self) -> (text: &'static str)
        ensures
            text@ == self.label_text(),
    {
        match self {
            FilterType::LowPass => "Low-Pass",
            FilterType::HighPass => "High-Pass",
            FilterType::BandPass => "Band-Pass",
        }
    }
}

/// Which polynomial an analytically generated filter follows.
#[derive(Clone, Copy, Debug, PartialEq, Eq, Structural)]
pub enum FilterResponse {
    /// Maximally flat passband, -3 dB exactly at the corner.
    Butterworth,
    /// Equiripple passband, steeper skirt for the same order.
    Chebyshev { ripple_db: Micro },
}

impl Default for FilterResponse {
    fn default() -> (response: Self)
        ensures
            response == FilterResponse::Butterworth,
    {
        FilterResponse::Butterworth
    }
}

/// Largest filter order a prototype is built for.
pub const MAX_FILTER_ORDER: u32 = 16;

/// The order a prototype is actually built with.
pub fn clamp_order(order: u32) -> (clamped: u32)
    ensures
        1 <= clamped <= MAX_FILTER_ORDER,
        1 <= order <= MAX_FILTER_ORDER ==> clamped == order,
        order < 1 ==> clamped == 1,
        order > MAX_FILTER_ORDER ==> clamped == MAX_FILTER_ORDER,
{
    if order < 1 {
        1
    } else if order > MAX_FILTER_ORDER {
        MAX_FILTER_ORDER
    } else {
        order
    }
}

/// Prototypes a cache holds before it is emptied.
pub const PROTOTYPE_LIMIT: usize = 16;

/// What identifies a prototype: the ripple (none for a maximally flat response, which so shares
/// its key with a ripple of zero) and the order it is built with.
pub open spec fn prototype_key(response: FilterResponse, order: u32) -> (Micro, u32) {
    (
        match response {
            FilterResponse::Butterworth => 0,
            FilterResponse::Chebyshev { ripple_db } => ripple_db,
        },
        if order < 1 {
            1
        } else if order > MAX_FILTER_ORDER {
            MAX_FILTER_ORDER
        } else {
            order
        },
    )
}

/// What identifies the prototype of a filter.
pub fn key_of_prototype(response: FilterResponse, order: u32) -> (key: (Micro, u32))
    ensures
        key == prototype_key(response, order),
{
    let ripple: Micro = match response {
        FilterResponse::Butterworth => 0,
        FilterResponse::Chebyshev { ripple_db } => ripple_db,
    };
    (ripple, clamp_order(order))
}

/// Prototypes computed before, by their keys.
pub struct PrototypeCache<P> {
    entries: Vec<((Micro, u32), P)>,
}

impl<P> View for PrototypeCache<P> {
    type V = Seq<((Micro, u32), P)>;

    closed spec fn view(&self) -> Seq<((Micro, u32), P)> {
        self.entries@
    }
}

impl<P> PrototypeCache<P> {
    /// Never more entries than the limit.
    pub open spec fn wf(&self) -> bool {
        self@.len() <= PROTOTYPE_LIMIT
    }

    /// An empty cache.
    pub fn new() -> (cache: Self)
        ensures
            cache@ == Seq::<((Micro, u32), P)>::empty(),
            cache.wf(),
    {
        let cache = PrototypeCache { entries: Vec::new() };
        assert(cache@ =~= Seq::empty());
        cache
    }

    /// The prototype with a key: the first entry for it.
    pub fn find(&self, key: (Micro, u32)) -> (found: Option<&P>)
        ensures
            found is None <==> forall|i: int|
                0 <= i < self@.len() ==> (#[trigger] self@[i]).0 != key,
            found is Some ==> exists|i: int|
                {
                    &&& 0 <= i < self@.len()
                    &&& (#[trigger] self@[i]).0 == key
                    &&& self@[i].1 == *found->0
                    &&& forall|j: int| 0 <= j < i ==> (#[trigger] self@[j]).0 != key
                },
    {
        let mut i: usize = 0;
        while i < self.entries.len()
            invariant
                i <= self.entries.len(),
                forall|j: int| 0 <= j < i ==> (#[trigger] self@[j]).0 != key,
            decreases self.entries.len() - i,
        {
            if self.entries[i].0.0 == key.0 && self.entries[i].0.1 == key.1 {
                assert(self@[i as int].0 == key);
                return Some(&self.entries[i].1);
            }
            assert(self@[i as int].0 != key);
            i += 1;
        }
        None
    }

    /// Adds a prototype. A full cache is emptied first rather than grown.
    pub fn remember(&mut self, key: (Micro, u32), prototype: P)
        requires
            old(self).wf(),
        ensures
            final(self).wf(),
            final(self)@ == if old(self)@.len() >= PROTOTYPE_LIMIT {
                seq![(key, prototype)]
            } else {
                old(self)@.push((key, prototype))
            },
    {
        if self.entries.len() >= PROTOTYPE_LIMIT {
            self.entries.clear();
        }
        self.entries.push((key, prototype));
        assert(old(self)@.len() >= PROTOTYPE_LIMIT ==> self@ =~= seq![(key, prototype)]);
    }
}

/// Analog filter built from a pole prototype.
#[derive(Clone, Copy, Debug, PartialEq, Eq, Structural)]
pub struct FilterModel {
    pub filter_type: FilterType,
    /// Cutoff frequency in MHz (low-pass, high-pass) or centre frequency (band-pass).
    pub cutoff_mhz: Micro,
    /// Bandwidth in MHz (band-pass only).
    pub bandwidth_mhz: Micro,
    /// Filter order (higher = steeper roll-off).
    pub order: u32,
    /// Which polynomial the filter follows.
    pub response: FilterResponse,
    /// Flat insertion loss of the passband in dB.
    pub insertion_loss_db: Micro,
}

impl Default for FilterModel {
    fn default() -> (model: Self)
        ensures
            model == (FilterModel {
                filter_type: FilterType::LowPass,
                cutoff_mhz: 1_000_000_000,
                bandwidth_mhz: 200_000_000,
                order: 4,
                response: FilterResponse::Butterworth,
                insertion_loss_db: 500_000,
            }),
    {
        FilterModel {
            filter_type: FilterType::LowPass,
            cutoff_mhz: 1_000_000_000,
            bandwidth_mhz: 200_000_000,
            order: 4,
            response: FilterResponse::Butterworth,
            insertion_loss_db: 500_000,
        }
    }
}

impl FilterModel {
    /// Twice the corner frequency whose pole decides how long the filter rings: a band-pass
    /// rings for as long as its half-bandwidth allows, not its centre.
    pub open spec fn twice_ringing_corner(&self) -> int {
        match self.filter_type {
            FilterType::BandPass => self.bandwidth_mhz as int,
            FilterType::LowPass | FilterType::HighPass => 2 * self.cutoff_mhz,
        }
    }

    /// Twice the corner frequency that sets the ring-down time, in MHz.
    pub fn twice_ringing_corner_mhz(&self) -> (corner: Micro)
        requires
            within_limit(self.cutoff_mhz),
        ensures
            corner == self.twice_ringing_corner(),
    {
        match self.filter_type {
            FilterType::BandPass => self.bandwidth_mhz,
            FilterType::LowPass | FilterType::HighPass => 2 * self.cutoff_mhz,
        }
    }
}

// ---------------------------------------------------------------------------
// Amplifier
// ---------------------------------------------------------------------------

/// Amplifier / LNA with a finite gain bandwidth, a noise figure and compression.
#[derive(Clone, Copy, Debug, PartialEq, Eq, Structural)]
pub struct AmplifierModel {
    /// Small-signal gain in dB.
    pub gain_db: Micro,
    /// Noise figure in dB.
    pub noise_figure_db: Micro,
    /// Output-referred 1 dB compression point in dBm.
    pub p1db_dbm: Micro,
    /// Output-referred third-order intercept in dBm.
    pub oip3_dbm: Micro,
    /// -3 dB gain bandwidth in MHz; 0 disables the roll-off.
    pub bandwidth_mhz: Micro,
}

impl Default for AmplifierModel {
    fn default() -> (model: Self)
        ensures
            model == (AmplifierModel {
                gain_db: 12_000_000,
                noise_figure_db: 2_000_000,
                p1db_dbm: 20_000_000,
                oip3_dbm: 30_000_000,
                bandwidth_mhz: 6_000_000_000,
            }),
    {
        AmplifierModel {
            gain_db: 12_000_000,
            noise_figure_db: 2_000_000,
            p1db_dbm: 20_000_000,
            oip3_dbm: 30_000_000,
            bandwidth_mhz: 6_000_000_000,
        }
    }
}

impl AmplifierModel {
    /// Input-referred 1 dB compression point in dBm: the output figure, plus the decibel the
    /// gain has already lost there, less the gain.
    pub fn input_p1db_dbm(&self) -> (dbm: Micro)
        requires
            within_limit(self.p1db_dbm),
            within_limit(self.gain_db),
        ensures
            dbm == self.p1db_dbm + UNIT - self.gain_db,
            dbm == self.input_p1db(),
    {
        self.p1db_dbm + UNIT - self.gain_db
    }

    /// True when the gain does not depend on frequency.
    pub fn is_flat(&self) -> (flat: bool)
        ensures
            flat == (self.bandwidth_mhz <= 0),
    {
        self.bandwidth_mhz <= 0
    }
}

// ---------------------------------------------------------------------------
// Attenuator, splitter, combiner
// ---------------------------------------------------------------------------

/// Resistive pad.
#[derive(Clone, Copy, Debug, PartialEq, Eq, Structural)]
pub struct AttenuatorModel {
    /// Attenuation in dB (positive value).
    pub attenuation_db: Micro,
}

impl Default for AttenuatorModel {
    fn default() -> (model: Self)
        ensures
            model.attenuation_db == 6 * UNIT,
    {
        AttenuatorModel { attenuation_db: 6_000_000 }
    }
}

/// Power splitter. Each output carries `1/N` of the input power less the excess loss.
#[derive(Clone, Copy, Debug, PartialEq, Eq, Structural)]
pub struct SplitterModel {
    /// Number of output ports.
    pub num_outputs: u32,
    /// Additional insertion loss in dB (beyond ideal splitting loss).
    pub excess_loss_db: Micro,
}

impl Default for SplitterModel {
    fn default() -> (model: Self)
        ensures
            model.num_outputs == 2,
            model.excess_loss_db == 500_000,
    {
        SplitterModel { num_outputs: 2, excess_loss_db: 500_000 }
    }
}

/// Power combiner. Voltages sum, then the split ratio applies.
#[derive(Clone, Copy, Debug, PartialEq, Eq, Structural)]
pub struct CombinerModel {
    /// Number of input ports (2-8).
    pub num_inputs: u32,
    /// Excess loss in dB beyond the theoretical split ratio.
    pub excess_loss_db: Micro,
}

impl Default for CombinerModel {
    fn default() -> (model: Self)
        ensures
            model.num_inputs == 2,
            model.excess_loss_db == 500_000,
    {
        CombinerModel { num_inputs: 2, excess_loss_db: 500_000 }
    }
}

// ---------------------------------------------------------------------------
// Mixer
// ---------------------------------------------------------------------------

/// Frequency-translating mixer driven by a real local oscillator, which produces both the sum
/// and the difference product.
#[derive(Clone, Copy, Debug, PartialEq, Eq, Structural)]
pub struct MixerModel {
    /// Local oscillator frequency in MHz.
    pub lo_freq_mhz: Micro,
    /// Conversion loss in dB (positive value), referred to the wanted product.
    pub conversion_loss_db: Micro,
    /// Noise figure in dB.
    pub noise_figure_db: Micro,
    /// Output-referred third-order intercept in dBm.
    pub oip3_dbm: Micro,
    /// LO feedthrough at the output port, in dBFS. Signal-independent.
    pub lo_leakage_dbfs: Micro,
    /// Third-harmonic content of the LO drive in dBc, which sets the 3xLO spurs.
    pub lo_harmonic3_dbc: Micro,
}

impl Default for MixerModel {
    fn default() -> (model: Self)
        ensures
            model == (MixerModel {
                lo_freq_mhz: 100_000_000,
                conversion_loss_db: 7_000_000,
                noise_figure_db: 7_000_000,
                oip3_dbm: 20_000_000,
                lo_leakage_dbfs: (-60_000_000) as Micro,
                lo_harmonic3_dbc: (-30_000_000) as Micro,
            }),
    {
        MixerModel {
            lo_freq_mhz: 100_000_000,
            conversion_loss_db: 7_000_000,
            noise_figure_db: 7_000_000,
            oip3_dbm: 20_000_000,
            lo_leakage_dbfs: -60_000_000,
            lo_harmonic3_dbc: -30_000_000,
        }
    }
}

impl MixerModel {
    /// The two products a real input tone at `freq_mhz` lands on, in MHz: the distance from
    /// the local oscillator and the sum with it.
    pub fn product_freqs(&self, freq_mhz: Micro) -> (products: (Micro, Micro))
        requires
            within_limit(freq_mhz),
            within_limit(self.lo_freq_mhz),
        ensures
            products.0 == if freq_mhz >= self.lo_freq_mhz {
                freq_mhz - self.lo_freq_mhz
            } else {
                self.lo_freq_mhz - freq_mhz
            },
            products.1 == freq_mhz + self.lo_freq_mhz,
            products.0 == self.products_of(freq_mhz as int).0,
            products.1 == self.products_of(freq_mhz as int).1,
    {
        let distance: Micro = if freq_mhz >= self.lo_freq_mhz {
            freq_mhz - self.lo_freq_mhz
        } else {
            self.lo_freq_mhz - freq_mhz
        };
        (distance, freq_mhz + self.lo_freq_mhz)
    }
}

// ---------------------------------------------------------------------------
// Phase shifter
// ---------------------------------------------------------------------------

/// How a phase shifter achieves its shift, which decides how it behaves off-centre.
#[derive(Clone, Copy, Debug, PartialEq, Eq, Structural)]
pub enum PhaseShiftKind {
    /// Constant phase across frequency, as a vector modulator gives.
    ConstantPhase,
    /// A length of line: the phase is set at a reference frequency and scales with it.
    TrueDelay,
}

impl PhaseShiftKind {
    pub open spec fn label_text(self) -> Seq<char> {
        match self {
            PhaseShiftKind::ConstantPhase => "Constant Phase"@,
            PhaseShiftKind::TrueDelay => "True Time Delay"@,
        }
    }

    /// Name shown to the user.
    pub fn label(self) -> (text: &'static str)
        ensures
            text@ == self.label_text(),
    {
        match self {
            PhaseShiftKind::ConstantPhase => "Constant Phase",
            PhaseShiftKind::TrueDelay => "True Time Delay",
        }
    }
}

/// The kind a phase shifter has when a saved graph does not name one.
pub fn default_ps_kind() -> (kind: PhaseShiftKind)
    ensures
        kind == PhaseShiftKind::ConstantPhase,
{
    PhaseShiftKind::ConstantPhase
}

/// Phase shifter. Both kinds keep a real input real.
#[derive(Clone, Copy, Debug, PartialEq, Eq, Structural)]
pub struct PhaseShifterModel {
    /// Phase shift in degrees.
    pub phase_shift_deg: Micro,
    /// Insertion loss in dB.
    pub insertion_loss_db: Micro,
    /// Constant-phase or true-delay behaviour.
    pub kind: PhaseShiftKind,
    /// Frequency at which `phase_shift_deg` is specified, for the true-delay kind.
    pub ref_freq_mhz: Micro,
}

impl Default for PhaseShifterModel {
    fn default() -> (model: Self)
        ensures
            model == (PhaseShifterModel {
                phase_shift_deg: 90_000_000,
                insertion_loss_db: 1_500_000,
                kind: PhaseShiftKind::ConstantPhase,
                ref_freq_mhz: 1_000_000_000,
            }),
    {
        PhaseShifterModel {
            phase_shift_deg: 90_000_000,
            insertion_loss_db: 1_500_000,
            kind: PhaseShiftKind::ConstantPhase,
            ref_freq_mhz: 1_000_000_000,
        }
    }
}

impl PhaseShifterModel {
    /// The delay in nanoseconds whose phase at the reference frequency is the configured shift:
    /// `phase / 360 / f_ref`. Zero without a reference.
    pub open spec fn delay(&self) -> Ratio {
        if self.ref_freq_mhz <= 0 {
            whole(0)
        } else {
            Ratio {
                over: (self.phase_shift_deg * 1_000_000_000) as i128,
                under: (360 * self.ref_freq_mhz) as i128,
            }
        }
    }

    /// Time delay in nanoseconds, for the true-delay kind.
    pub fn delay_ns(&self) -> (delay: Ratio)
        ensures
            delay == self.delay(),
            delay.wf(),
    {
        if self.ref_freq_mhz <= 0 {
            Ratio { over: 0, under: 1 }
        } else {
            Ratio {
                over: self.phase_shift_deg as i128 * 1_000_000_000,
                under: 360 * self.ref_freq_mhz as i128,
            }
        }
    }

    /// The phase of the output against the input at a frequency: the shift, backwards, at every
    /// frequency for a constant phase, and in proportion to the frequency for a length of line.
    /// A line without a reference shifts nothing.
    pub open spec fn phase_at(&self, freq: int) -> Ratio {
        match self.kind {
            PhaseShiftKind::ConstantPhase => whole(-self.phase_shift_deg),
            PhaseShiftKind::TrueDelay => if self.ref_freq_mhz <= 0 {
                whole(0)
            } else {
                Ratio {
                    over: (-self.phase_shift_deg * freq) as i128,
                    under: self.ref_freq_mhz as i128,
                }
            },
        }
    }

    /// The phase in degrees of the output against the input at a frequency.
    pub fn phase_deg_at(&self, freq_mhz: Micro) -> (phase: Ratio)
        ensures
            phase == self.phase_at(freq_mhz as int),
            phase.wf(),
    {
        match self.kind {
            PhaseShiftKind::ConstantPhase => {
                Ratio { over: -(self.phase_shift_deg as i128), under: 1 }
            },
            PhaseShiftKind::TrueDelay => {
                if self.ref_freq_mhz <= 0 {
                    Ratio { over: 0, under: 1 }
                } else {
                    proof {
                        shifts_fit(self.phase_shift_deg as int, freq_mhz as int);
                    }
                    Ratio {
                        over: -(self.phase_shift_deg as i128) * freq_mhz as i128,
                        under: self.ref_freq_mhz as i128,
                    }
                }
            },
        }
    }

    /// How long the shifter takes to settle, in nanoseconds.
    pub open spec fn settling(&self) -> Ratio {
        match self.kind {
            PhaseShiftKind::TrueDelay => Ratio {
                over: if self.delay().over < 0 {
                    (-self.delay().over) as i128
                } else {
                    self.delay().over
                },
                ..self.delay()
            },
            PhaseShiftKind::ConstantPhase => whole(0),
        }
    }

    /// How long the impulse response takes to die away, in nanoseconds: the magnitude of the
    /// delay for a length of line, nothing for a constant phase.
    pub fn settling_ns(&self) -> (settling: Ratio)
        ensures
            settling.wf(),
            settling == match self.kind {
                PhaseShiftKind::TrueDelay => Ratio {
                    over: if self.delay().over < 0 {
                        (-self.delay().over) as i128
                    } else {
                        self.delay().over
                    },
                    ..self.delay()
                },
                PhaseShiftKind::ConstantPhase => whole(0),
            },
            settling == self.settling(),
    {
        match self.kind {
            PhaseShiftKind::TrueDelay => {
                let delay: Ratio = self.delay_ns();
                if delay.over < 0 {
                    Ratio { over: -delay.over, under: delay.under }
                } else {
                    delay
                }
            },
            PhaseShiftKind::ConstantPhase => Ratio { over: 0, under: 1 },
        }
    }
}

proof fn shifts_fit(shift: int, freq: int)
    requires
        -0x8000_0000_0000_0000 <= shift <= 0x7fff_ffff_ffff_ffff,
        -0x8000_0000_0000_0000 <= freq <= 0x7fff_ffff_ffff_ffff,
    ensures
        -0x4000_0000_0000_0000_0000_0000_0000_0000 <= -shift * freq
            <= 0x4000_0000_0000_0000_0000_0000_0000_0000,
{
    assert(-0x4000_0000_0000_0000_0000_0000_0000_0000 <= -shift * freq
        <= 0x4000_0000_0000_0000_0000_0000_0000_0000) by (nonlinear_arith)
        requires
            -0x8000_0000_0000_0000 <= shift <= 0x7fff_ffff_ffff_ffff,
            -0x8000_0000_0000_0000 <= freq <= 0x7fff_ffff_ffff_ffff,
    ;
}

/// A length of line has the configured shift at its reference frequency, and `k` times the shift
/// at `k` times the frequency.
pub proof fn line_phase_scales_with_frequency(model: PhaseShifterModel, k: int)
    requires
        model.kind == PhaseShiftKind::TrueDelay,
        model.ref_freq_mhz > 0,
        -0x8000_0000_0000_0000 <= k * model.ref_freq_mhz <= 0x7fff_ffff_ffff_ffff,
    ensures
        model.phase_at(k * model.ref_freq_mhz).equals(-(k * model.phase_shift_deg), 1),
{
    let shift = model.phase_shift_deg as int;
    let reference = model.ref_freq_mhz as int;
    shifts_fit(shift, k * reference);
    assert(-shift * (k * reference) == -(k * shift) * reference) by (nonlinear_arith);
}

// ---------------------------------------------------------------------------
// Directional coupler
// ---------------------------------------------------------------------------

/// Which output port index of a directional coupler is the coupled arm.
pub const COUPLER_COUPLED_PORT: usize = 1;

/// Directional coupler: port 0 is the main line, port 1 the coupled arm.
#[derive(Clone, Copy, Debug, PartialEq, Eq, Structural)]
pub struct DirectionalCouplerModel {
    /// Coupling factor in dB.
    pub coupling_db: Micro,
    /// Insertion loss of the main line in dB, beyond the power tapped off.
    pub insertion_loss_db: Micro,
    /// Directivity in dB, reported for reference; reverse waves are not simulated.
    pub directivity_db: Micro,
}

impl Default for DirectionalCouplerModel {
    fn default() -> (model: Self)
        ensures
            model == (DirectionalCouplerModel {
                coupling_db: 20_000_000,
                insertion_loss_db: 500_000,
                directivity_db: 25_000_000,
            }),
    {
        DirectionalCouplerModel {
            coupling_db: 20_000_000,
            insertion_loss_db: 500_000,
            directivity_db: 25_000_000,
        }
    }
}

// ---------------------------------------------------------------------------
// What the figures of components mean
// ---------------------------------------------------------------------------

/// Beyond its ends a table is held: below the first point it reads the first value, above the last
/// the last. An empty table reads nothing.
pub proof fn tables_are_held_at_their_ends(table: Seq<(Micro, Micro)>, f: int)
    ensures
        table.len() == 0 ==> interpolated(table, f).equals(0, 1),
        table.len() > 0 && f <= table[0].0 ==> interpolated(table, f).equals(table[0].1 as int, 1),
        table.len() > 1 && f > table[0].0 && f >= table.last().0 ==> interpolated(table, f).equals(
            table.last().1 as int,
            1,
        ),
{
}

/// Between two points of a table that rises in frequency a value lies on the straight line through
/// them: it is as far from the value below as the frequency is from the frequency below, in
/// proportion.
pub proof fn values_lie_on_the_line(table: Seq<(Micro, Micro)>, k: int, f: int)
    requires
        table_within_limit(table),
        forall|i: int, j: int| 0 <= i < j < table.len() ==> (#[trigger] table[i]).0 < (#[trigger] table[j]).0,
        0 <= k < table.len() - 1,
        table[k].0 < f < table[k + 1].0,
    ensures
        ({
            let value = interpolated(table, f);
            let (f0, v0) = (table[k].0 as int, table[k].1 as int);
            let (f1, v1) = (table[k + 1].0 as int, table[k + 1].1 as int);
            &&& value.wf()
            &&& (value.over - v0 * value.under) * (f1 - f0) == (v1 - v0) * (f - f0) * value.under
        }),
{
    if k > 0 {
        assert(table[0].0 < table[k].0);
    }
    if k + 1 < table.len() - 1 {
        assert(table[k + 1].0 < table[table.len() - 1].0);
    }
    first_span_bounds(table, f, 0);
    let i = first_span(table, f, 0);
    assert(spans(table, f, k));
    assert(i <= k);
    if i < k {
        assert(spans(table, f, i));
        if i + 1 < k {
            assert(table[i + 1].0 < table[k].0);
        }
    }
    assert(i == k);
    let (f0, v0) = (table[k].0 as int, table[k].1 as int);
    let (f1, v1) = (table[k + 1].0 as int, table[k + 1].1 as int);
    assert(within_limit(table[k].0) && within_limit(table[k].1));
    assert(within_limit(table[k + 1].0) && within_limit(table[k + 1].1));
    line_stays_between(f0, v0, f1, v1, f);
    let (d, rise) = (f1 - f0, (f - f0) * (v1 - v0));
    assert((v0 * d + rise - v0 * d) * d == rise * d);
    assert((f - f0) * (v1 - v0) == (v1 - v0) * (f - f0)) by (nonlinear_arith);
}

/// Phase is delay times frequency, a full turn for every period: the phase of a length of line at
/// a frequency is minus 360 degrees times the frequency times its delay. A line without a reference
/// has neither.
pub proof fn phase_is_delay_times_frequency(model: PhaseShifterModel, freq: int)
    requires
        model.kind == PhaseShiftKind::TrueDelay,
        -0x8000_0000_0000_0000 <= freq <= 0x7fff_ffff_ffff_ffff,
    ensures
        ({
            let (phase, delay) = (model.phase_at(freq), model.delay());
            &&& phase.wf()
            &&& delay.wf()
            &&& phase.over * delay.under * 1_000_000_000 == -360 * freq * delay.over * phase.under
            &&& model.ref_freq_mhz <= 0 ==> phase.over == 0 && delay.over == 0
        }),
{
    let (shift, reference) = (model.phase_shift_deg as int, model.ref_freq_mhz as int);
    if reference > 0 {
        shifts_fit(shift, freq);
        assert((-shift * freq) * (360 * reference) * 1_000_000_000 == -360 * freq * (shift
            * 1_000_000_000) * reference) by (nonlinear_arith);
    } else if model.ref_freq_mhz <= 0 {
        assert(-360 * freq * 0 * 1 == 0) by (nonlinear_arith);
    }
}

/// A constant phase is the configured shift, backwards, at every frequency.
pub proof fn constant_phase_does_not_depend_on_frequency(
    model: PhaseShifterModel,
    freq: int,
    other: int,
)
    requires
        model.kind == PhaseShiftKind::ConstantPhase,
    ensures
        model.phase_at(freq) == model.phase_at(other),
        model.phase_at(freq).equals(-model.phase_shift_deg, 1),
{
}

/// Filters with one key have one prototype: the key holds the ripple, which a maximally flat
/// response does not have, and the order brought into its range. Different orders in range never
/// share one.
pub proof fn keys_tell_prototypes_apart(
    a: FilterResponse,
    b: FilterResponse,
    order: u32,
    other: u32,
)
    ensures
        1 <= prototype_key(a, order).1 <= 16,
        1 <= order <= 16 && 1 <= other <= 16 && prototype_key(a, order) == prototype_key(b, other)
            ==> order == other,
        a matches FilterResponse::Chebyshev { ripple_db } ==> prototype_key(a, order).0 == ripple_db,
        a == FilterResponse::Butterworth ==> prototype_key(a, order).0 == 0,
        order > 16 ==> prototype_key(a, order) == prototype_key(a, 16),
        order < 1 ==> prototype_key(a, order) == prototype_key(a, 1),
{
}

/// A band-pass rings as a low-pass of half its bandwidth does: what matters is how wide the band
/// is, not where it lies.
pub proof fn bands_ring_like_half_as_wide_low_passes(band: FilterModel, low: FilterModel)
    requires
        band.filter_type == FilterType::BandPass,
        low.filter_type != FilterType::BandPass,
        band.bandwidth_mhz == 2 * low.cutoff_mhz,
    ensures
        band.twice_ringing_corner() == low.twice_ringing_corner(),
        low.twice_ringing_corner() == 2 * low.cutoff_mhz,
{
}

/// The datasheet losses cover the band the part is specified over, from 10 MHz to 3 GHz in rising
/// order, are losses everywhere, and are least near 100 MHz.
pub proof fn datasheet_losses_are_losses(i: int, j: int)
    requires
        0 <= i < j < tcm2_33wx_losses().len(),
    ensures
        ({
            let losses = tcm2_33wx_losses();
            &&& losses[i].0 < losses[j].0
            &&& losses[0].0 == 10 * UNIT
            &&& losses.last().0 == 3000 * UNIT
            &&& 780_000 <= losses[i].1 <= 2_930_000
            &&& 1 <= i ==> losses[i].1 < losses[j].1
        }),
{
}

impl AmplifierModel {
    /// The input level at which the output is compressed by one decibel.
    pub open spec fn input_p1db(&self) -> int {
        self.p1db_dbm + UNIT - self.gain_db
    }
}

/// At its compression point an amplifier puts out one decibel less than its gain promises: the input
/// level there, plus the gain, less a decibel, is the output level it is specified at.
pub proof fn compression_costs_a_decibel(model: AmplifierModel)
    ensures
        model.input_p1db() + model.gain_db - 1_000_000 == model.p1db_dbm,
{
}

impl MixerModel {
    /// The difference and the sum that mixing a frequency with the local oscillator gives.
    pub open spec fn products_of(&self, freq: int) -> (int, int) {
        (
            if freq >= self.lo_freq_mhz {
                freq - self.lo_freq_mhz
            } else {
                self.lo_freq_mhz - freq
            },
            freq + self.lo_freq_mhz,
        )
    }
}

/// The products of a mixer lie evenly about the higher of the two frequencies, the lower of them
/// away; it does not matter which of the two is the oscillator's, and the difference is never
/// negative.
pub proof fn products_lie_about_the_higher_frequency(model: MixerModel, other: MixerModel, freq: Micro)
    requires
        other.lo_freq_mhz == freq,
    ensures
        ({
            let (low, high) = model.products_of(freq as int);
            let lo = model.lo_freq_mhz as int;
            &&& low >= 0
            &&& high + low == 2 * if freq >= lo {
                freq as int
            } else {
                lo
            }
            &&& high - low == 2 * if freq >= lo {
                lo
            } else {
                freq as int
            }
            &&& other.products_of(lo) == (low, high)
        }),
{
}

/// A shifter settles in no less than nothing and, if it shifts by delaying, in neither more nor
/// less time than the delay, whichever way the shift goes; one of constant phase at once.
pub proof fn shifters_settle_within_their_delay(model: PhaseShifterModel)
    ensures
        model.settling().over >= 0,
        model.kind == PhaseShiftKind::ConstantPhase ==> model.settling().over == 0,
        model.kind == PhaseShiftKind::TrueDelay ==> {
            &&& model.settling().under == model.delay().under
            &&& model.settling().over >= model.delay().over
            &&& model.settling().over * model.settling().over == model.delay().over
                * model.delay().over
        },
{
    let over = model.delay().over as int;
    assert((-over) * (-over) == over * over) by (nonlinear_arith);
}

} // verus!
