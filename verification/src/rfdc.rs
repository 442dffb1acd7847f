//! Configuration of the ZU48DR data converters and their frequency plan.

use vstd::arithmetic::div_mod::*;
use vstd::prelude::*;
use vstd::string::StringExecFns;
use crate::text::{decimal, numeral};
use crate::units::{div_floor, Micro, Ratio};

verus! {

// ---------------------------------------------------------------------------
// Nyquist zones
// ---------------------------------------------------------------------------

/// A Nyquist zone: the stretch of half a sample rate that the input lies in.
#[derive(Clone, Copy, Debug, PartialEq, Eq, Structural)]
pub enum NyquistZone {
    Zone1,
    Zone2,
    Zone3,
    Zone4,
    Zone5,
    Zone6,
    Zone7,
    Zone8,
}

impl NyquistZone {
    pub const ALL: [NyquistZone; 8] = [
        NyquistZone::Zone1,
        NyquistZone::Zone2,
        NyquistZone::Zone3,
        NyquistZone::Zone4,
        NyquistZone::Zone5,
        NyquistZone::Zone6,
        NyquistZone::Zone7,
        NyquistZone::Zone8,
    ];

    pub const FIRST: NyquistZone = NyquistZone::Zone1;

    pub const SECOND: NyquistZone = NyquistZone::Zone2;

    /// The zone's number, counted from one.
    pub open spec fn number(self) -> int {
        match self {
            NyquistZone::Zone1 => 1,
            NyquistZone::Zone2 => 2,
            NyquistZone::Zone3 => 3,
            NyquistZone::Zone4 => 4,
            NyquistZone::Zone5 => 5,
            NyquistZone::Zone6 => 6,
            NyquistZone::Zone7 => 7,
            NyquistZone::Zone8 => 8,
        }
    }

    /// The zone's number, counted from one.
    pub fn index(&self) -> (index: u32)
        ensures
            index == self.number(),
    {
        match self {
            NyquistZone::Zone1 => 1,
            NyquistZone::Zone2 => 2,
            NyquistZone::Zone3 => 3,
            NyquistZone::Zone4 => 4,
            NyquistZone::Zone5 => 5,
            NyquistZone::Zone6 => 6,
            NyquistZone::Zone7 => 7,
            NyquistZone::Zone8 => 8,
        }
    }

    /// The zone with a number; the last one for any number out of range.
    pub open spec fn numbered(index: int) -> NyquistZone {
        if index == 1 {
            NyquistZone::Zone1
        } else if index == 2 {
            NyquistZone::Zone2
        } else if index == 3 {
            NyquistZone::Zone3
        } else if index == 4 {
            NyquistZone::Zone4
        } else if index == 5 {
            NyquistZone::Zone5
        } else if index == 6 {
            NyquistZone::Zone6
        } else if index == 7 {
            NyquistZone::Zone7
        } else {
            NyquistZone::Zone8
        }
    }

    /// The zone with a number; the last one for any number out of range.
    pub fn from_index(index: u32) -> (zone: Self)
        ensures
            zone == NyquistZone::numbered(index as int),
    {
        match index {
            1 => NyquistZone::Zone1,
            2 => NyquistZone::Zone2,
            3 => NyquistZone::Zone3,
            4 => NyquistZone::Zone4,
            5 => NyquistZone::Zone5,
            6 => NyquistZone::Zone6,
            7 => NyquistZone::Zone7,
            _ => NyquistZone::Zone8,
        }
    }

    /// Whether spectra of this zone arrive mirrored.
    pub fn is_even(&self) -> (even: bool)
        ensures
            even == (self.number() % 2 == 0),
    {
        self.index() % 2 == 0
    }

    pub open spec fn label_text(self) -> Seq<char> {
        "Zone "@ + numeral(self.number() as nat) + if self.number() % 2 == 0 {
            " (Even, Mirrored)"@
        } else {
            " (Odd, Direct)"@
        }
    }

    /// Name shown to the user.
    pub fn label(&self) -> (text: String)
        ensures
            text@ == self.label_text(),
    {
        let tail: &str = if self.is_even() {
            " (Even, Mirrored)"
        } else {
            " (Odd, Direct)"
        };
        "Zone ".to_owned().concat(decimal(self.index() as u64).as_str()).concat(tail)
    }
}

/// Numbering the zones and looking them up undo each other, from either side; and the list of
/// all zones holds them by their numbers.
pub proof fn zone_numbers_round_trip(zone: NyquistZone, index: int)
    requires
        1 <= index <= 8,
    ensures
        NyquistZone::numbered(zone.number()) == zone,
        1 <= zone.number() <= 8,
        NyquistZone::numbered(index).number() == index,
        NyquistZone::ALL@.len() == 8,
        NyquistZone::ALL@[index - 1] == NyquistZone::numbered(index),
        NyquistZone::ALL@[zone.number() - 1] == zone,
        NyquistZone::FIRST.number() == 1,
        NyquistZone::SECOND.number() == 2,
{
}

/// A number without a zone of its own is looked up as the last zone, however far out it is.
pub proof fn numbers_out_of_range_are_the_last_zone(index: int)
    requires
        index < 1 || index > 8,
    ensures
        NyquistZone::numbered(index).number() == 8,
{
}

// ---------------------------------------------------------------------------
// Down-conversion settings
// ---------------------------------------------------------------------------

/// Frequency steps of the coarse mixer.
#[derive(Clone, Copy, Debug, PartialEq, Eq, Structural)]
pub enum CoarseMixFreq {
    FsOver4,
    MinusFsOver4,
    FsOver2,
}

impl CoarseMixFreq {
    pub const ALL: [CoarseMixFreq; 3] = [
        CoarseMixFreq::FsOver4,
        CoarseMixFreq::MinusFsOver4,
        CoarseMixFreq::FsOver2,
    ];

    pub open spec fn label_text(self) -> Seq<char> {
        match self {
            CoarseMixFreq::FsOver4 => "Fs/4"@,
            CoarseMixFreq::MinusFsOver4 => "−Fs/4"@,
            CoarseMixFreq::FsOver2 => "Fs/2"@,
        }
    }

    /// Name shown to the user.
    pub fn label(self) -> (text: &'static str)
        ensures
            text@ == self.label_text(),
    {
        match self {
            CoarseMixFreq::FsOver4 => "Fs/4",
            CoarseMixFreq::MinusFsOver4 => "−Fs/4",
            CoarseMixFreq::FsOver2 => "Fs/2",
        }
    }

    /// The shift in quarters of the sample rate.
    pub open spec fn quarters(self) -> int {
        match self {
            CoarseMixFreq::FsOver4 => 1,
            CoarseMixFreq::MinusFsOver4 => -1,
            CoarseMixFreq::FsOver2 => 2,
        }
    }

    /// The shift in quarters of the sample rate.
    pub fn shift_quarters(self) -> (quarters: i64)
        ensures
            quarters == self.quarters(),
    {
        match self {
            CoarseMixFreq::FsOver4 => 1,
            CoarseMixFreq::MinusFsOver4 => -1,
            CoarseMixFreq::FsOver2 => 2,
        }
    }
}

/// The three steps of the coarse mixer are different shifts of a sampled signal, `FsOver4` and
/// `MinusFsOver4` opposite ones: two steps with the same shift are the same, two that cancel are
/// those two, and half the sample rate is its own opposite after sampling.
pub proof fn coarse_steps_are_told_apart(a: CoarseMixFreq, b: CoarseMixFreq)
    ensures
        (a.quarters() - b.quarters()) % 4 == 0 <==> a == b,
        CoarseMixFreq::FsOver4.quarters() + CoarseMixFreq::MinusFsOver4.quarters() == 0,
        CoarseMixFreq::FsOver4.quarters() > 0,
        2 * CoarseMixFreq::FsOver4.quarters() == CoarseMixFreq::FsOver2.quarters(),
        (2 * CoarseMixFreq::FsOver2.quarters()) % 4 == 0,
        4 * CoarseMixFreq::FsOver4.quarters() == 4,
{
}

/// How a block mixes its samples down.
#[derive(Clone, Copy, Debug, PartialEq, Eq, Structural)]
pub enum MixerMode {
    Bypass,
    CoarseMix(CoarseMixFreq),
    FineMix,
}

impl MixerMode {
    /// One of each kind, for building a selector.
    pub fn all_basic() -> (modes: [MixerMode; 3])
        ensures
            modes@ == seq![
                MixerMode::Bypass,
                MixerMode::CoarseMix(CoarseMixFreq::FsOver4),
                MixerMode::FineMix,
            ],
    {
        let modes: [MixerMode; 3] = [
            MixerMode::Bypass,
            MixerMode::CoarseMix(CoarseMixFreq::FsOver4),
            MixerMode::FineMix,
        ];
        assert(modes@ =~= seq![
            MixerMode::Bypass,
            MixerMode::CoarseMix(CoarseMixFreq::FsOver4),
            MixerMode::FineMix,
        ]);
        modes
    }

    pub open spec fn label_text(self) -> Seq<char> {
        match self {
            MixerMode::Bypass => "Bypass"@,
            MixerMode::CoarseMix(freq) => "Coarse ("@ + freq.label_text() + ")"@,
            MixerMode::FineMix => "Fine (NCO)"@,
        }
    }

    /// Name shown to the user.
    pub fn label(self) -> (text: String)
        ensures
            text@ == self.label_text(),
    {
        match self {
            MixerMode::Bypass => "Bypass".to_owned(),
            MixerMode::CoarseMix(freq) => "Coarse (".to_owned().concat(freq.label()).concat(")"),
            MixerMode::FineMix => "Fine (NCO)".to_owned(),
        }
    }
}

/// Decimation factors of the down-converter.
#[derive(Clone, Copy, Debug, PartialEq, Eq, Structural)]
pub enum DecimationFactor {
    X1,
    X2,
    X3,
    X4,
    X5,
    X6,
    X8,
    X10,
    X12,
    X16,
    X20,
    X24,
    X40,
}

impl DecimationFactor {
    pub const ALL: [DecimationFactor; 13] = [
        DecimationFactor::X1,
        DecimationFactor::X2,
        DecimationFactor::X3,
        DecimationFactor::X4,
        DecimationFactor::X5,
        DecimationFactor::X6,
        DecimationFactor::X8,
        DecimationFactor::X10,
        DecimationFactor::X12,
        DecimationFactor::X16,
        DecimationFactor::X20,
        DecimationFactor::X24,
        DecimationFactor::X40,
    ];

    pub open spec fn value(self) -> int {
        match self {
            DecimationFactor::X1 => 1,
            DecimationFactor::X2 => 2,
            DecimationFactor::X3 => 3,
            DecimationFactor::X4 => 4,
            DecimationFactor::X5 => 5,
            DecimationFactor::X6 => 6,
            DecimationFactor::X8 => 8,
            DecimationFactor::X10 => 10,
            DecimationFactor::X12 => 12,
            DecimationFactor::X16 => 16,
            DecimationFactor::X20 => 20,
            DecimationFactor::X24 => 24,
            DecimationFactor::X40 => 40,
        }
    }

    /// The factor as a number.
    pub fn factor(self) -> (factor: u32)
        ensures
            factor == self.value(),
            1 <= factor <= 40,
    {
        match self {
            DecimationFactor::X1 => 1,
            DecimationFactor::X2 => 2,
            DecimationFactor::X3 => 3,
            DecimationFactor::X4 => 4,
            DecimationFactor::X5 => 5,
            DecimationFactor::X6 => 6,
            DecimationFactor::X8 => 8,
            DecimationFactor::X10 => 10,
            DecimationFactor::X12 => 12,
            DecimationFactor::X16 => 16,
            DecimationFactor::X20 => 20,
            DecimationFactor::X24 => 24,
            DecimationFactor::X40 => 40,
        }
    }

    /// Name shown to the user.
    pub fn label(self) -> (text: String)
        ensures
            text@ == "×"@ + numeral(self.value() as nat),
    {
        "×".to_owned().concat(decimal(self.factor() as u64).as_str())
    }
}

/// The factors in the list are all there are, rise from one to forty, and are each made of
/// halvings and at most one division by three or five.
pub proof fn factors_rise(factor: DecimationFactor, i: int, j: int)
    requires
        0 <= i < j < 13,
    ensures
        DecimationFactor::ALL@.len() == 13,
        DecimationFactor::ALL@.contains(factor),
        DecimationFactor::ALL@[i].value() < DecimationFactor::ALL@[j].value(),
        1 <= factor.value() <= 40,
        240int % factor.value() == 0,
{
    let all = DecimationFactor::ALL@;
    match factor {
        DecimationFactor::X1 => assert(all[0] == factor),
        DecimationFactor::X2 => assert(all[1] == factor),
        DecimationFactor::X3 => assert(all[2] == factor),
        DecimationFactor::X4 => assert(all[3] == factor),
        DecimationFactor::X5 => assert(all[4] == factor),
        DecimationFactor::X6 => assert(all[5] == factor),
        DecimationFactor::X8 => assert(all[6] == factor),
        DecimationFactor::X10 => assert(all[7] == factor),
        DecimationFactor::X12 => assert(all[8] == factor),
        DecimationFactor::X16 => assert(all[9] == factor),
        DecimationFactor::X20 => assert(all[10] == factor),
        DecimationFactor::X24 => assert(all[11] == factor),
        DecimationFactor::X40 => assert(all[12] == factor),
    }
}

/// Background calibration mode of a converter.
#[derive(Clone, Copy, Debug, PartialEq, Eq, Structural)]
pub enum CalibrationMode {
    Mode1,
    Mode2,
}

impl CalibrationMode {
    /// Name shown to the user.
    pub fn label(self) -> (text: &'static str)
        ensures
            text@ == match self {
                CalibrationMode::Mode1 => "Mode 1"@,
                CalibrationMode::Mode2 => "Mode 2"@,
            },
    {
        match self {
            CalibrationMode::Mode1 => "Mode 1",
            CalibrationMode::Mode2 => "Mode 2",
        }
    }
}

/// Converter imperfections to simulate.
#[derive(Clone, Copy, Debug, PartialEq, Eq, Structural)]
pub struct AdcNonIdealities {
    pub enabled: bool,
    /// Effective number of bits.
    pub enob: Micro,
    pub quantization_bits: u8,
    pub hd2_dbc: Micro,
    pub hd3_dbc: Micro,
    pub interleaving_spur_dbc: Micro,
}

/// Imperfections switched off, with the figures they start from.
pub open spec fn default_non_idealities() -> AdcNonIdealities {
    AdcNonIdealities {
        enabled: false,
        enob: 11_500_000,
        quantization_bits: 12,
        hd2_dbc: (-70_000_000) as Micro,
        hd3_dbc: (-75_000_000) as Micro,
        interleaving_spur_dbc: (-68_000_000) as Micro,
    }
}

impl Default for AdcNonIdealities {
    fn default() -> (value: Self)
        ensures
            value == default_non_idealities(),
    {
        AdcNonIdealities {
            enabled: false,
            enob: 11_500_000,
            quantization_bits: 12,
            hd2_dbc: -70_000_000,
            hd3_dbc: -75_000_000,
            interleaving_spur_dbc: -68_000_000,
        }
    }
}

/// The imperfections to start from are those of a real converter of twelve bits: it loses half a bit
/// to noise, its products and spurs lie below the carrier, the third harmonic five decibels below
/// the second and the spurs two above it. They are switched off.
pub proof fn starting_imperfections_hang_together()
    ensures
        ({
            let start = default_non_idealities();
            &&& !start.enabled
            &&& start.quantization_bits == 12
            &&& start.enob + 500_000 == start.quantization_bits * 1_000_000
            &&& start.hd3_dbc == start.hd2_dbc - 5_000_000
            &&& start.interleaving_spur_dbc == start.hd2_dbc + 2_000_000
            &&& start.hd2_dbc == -70_000_000
        }),
{
}

// ---------------------------------------------------------------------------
// Blocks
// ---------------------------------------------------------------------------

/// Largest sample rate the exact rate arithmetic covers, in millionths of a GSPS.
pub const SAMPLE_RATE_LIMIT: Micro = 1_000_000_000_000;

/// A sample rate within the range of exact arithmetic.
pub open spec fn rate_in_range(sample_rate_gsps: Micro) -> bool {
    -SAMPLE_RATE_LIMIT <= sample_rate_gsps <= SAMPLE_RATE_LIMIT
}

/// A single ADC converter block with its down-converter.
#[derive(Clone, Copy, Debug, PartialEq, Eq, Structural)]
pub struct AdcBlock {
    pub index: usize,
    pub enabled: bool,
    /// Nyquist zone the converter is set to; it decides which way the NCO turns.
    pub nyquist_zone: NyquistZone,
    /// Number of the zone the block is planned for, past the last named one too.
    pub planner_zone: u32,
    pub mixer_mode: MixerMode,
    pub nco_freq_mhz: Micro,
    pub decimation: DecimationFactor,
    pub calibration_mode: CalibrationMode,
    pub non_idealities: AdcNonIdealities,
}

/// A block as it comes up: enabled, in the first zone, mixer bypassed, not decimating.
pub open spec fn fresh_block(index: usize) -> AdcBlock {
    AdcBlock {
        index,
        enabled: true,
        nyquist_zone: NyquistZone::Zone1,
        planner_zone: 1,
        mixer_mode: MixerMode::Bypass,
        nco_freq_mhz: 0,
        decimation: DecimationFactor::X1,
        calibration_mode: CalibrationMode::Mode1,
        non_idealities: default_non_idealities(),
    }
}

/// Fastest clock, in hertz, the programmable logic can take the output stream at.
pub const AXI_CLOCK_LIMIT_HZ: i64 = 500_000_000;

impl AdcBlock {
    pub fn new(index: usize) -> (block: Self)
        ensures
            block == fresh_block(index),
    {
        AdcBlock {
            index,
            enabled: true,
            nyquist_zone: NyquistZone::Zone1,
            planner_zone: 1,
            mixer_mode: MixerMode::Bypass,
            nco_freq_mhz: 0,
            decimation: DecimationFactor::X1,
            calibration_mode: CalibrationMode::Mode1,
            non_idealities: AdcNonIdealities::default(),
        }
    }

    /// Output sample rate in MHz at a tile rate: the tile rate over the decimation factor.
    pub open spec fn output_rate(&self, sample_rate_gsps: Micro) -> Ratio {
        Ratio {
            over: (sample_rate_gsps * 1000) as i128,
            under: self.decimation.value() as i128,
        }
    }

    /// Output sample rate in MHz at a tile rate: the tile rate over the decimation factor.
    pub fn output_rate_mhz(&self, tile_sample_rate_gsps: Micro) -> (rate: Ratio)
        ensures
            rate == self.output_rate(tile_sample_rate_gsps),
            rate.wf(),
            rate.over == tile_sample_rate_gsps * 1000,
            rate.under == self.decimation.value(),
    {
        Ratio {
            over: tile_sample_rate_gsps as i128 * 1000,
            under: self.decimation.factor() as i128,
        }
    }

    /// Whether the block mixes at all.
    pub fn mixer_active(&self) -> (active: bool)
        ensures
            active == (self.mixer_mode != MixerMode::Bypass),
    {
        !matches!(self.mixer_mode, MixerMode::Bypass)
    }

    /// The output stream, carrying this many samples per clock, is no faster than the logic.
    pub open spec fn stream_fits(&self, sample_rate_gsps: Micro, words: int) -> bool {
        sample_rate_gsps * 1000 <= AXI_CLOCK_LIMIT_HZ * words * self.decimation.value()
    }

    /// The block planned for a zone.
    pub open spec fn planned_for(self, zone_index: u32) -> AdcBlock {
        AdcBlock {
            nyquist_zone: if zone_index % 2 == 0 {
                NyquistZone::SECOND
            } else {
                NyquistZone::FIRST
            },
            planner_zone: zone_index,
            ..self
        }
    }

    /// Whether the logic can take the output stream when it carries this many samples per
    /// clock: the stream's clock is the output rate divided by that number, and must not be
    /// faster than [`AXI_CLOCK_LIMIT_HZ`].
    pub fn axi_clock_is_valid(&self, tile_sample_rate_gsps: Micro, axi_words_per_clock: u32) -> (valid: bool)
        requires
            rate_in_range(tile_sample_rate_gsps),
        ensures
            valid == (tile_sample_rate_gsps * 1000 <= AXI_CLOCK_LIMIT_HZ * axi_words_per_clock
                * self.decimation.value()),
            valid == self.stream_fits(tile_sample_rate_gsps, axi_words_per_clock as int),
    {
        let factor: u32 = self.decimation.factor();
        let words: i128 = axi_words_per_clock as i128;
        assert(0 <= 500_000_000 * words * factor <= 500_000_000int * 0xffff_ffff * 40)
            by (nonlinear_arith)
            requires
                0 <= words <= 0xffff_ffff,
                1 <= factor <= 40,
        ;
        tile_sample_rate_gsps as i128 * 1000 <= AXI_CLOCK_LIMIT_HZ as i128 * words * factor as i128
    }
}

/// A block that has just come up hands on what its tile samples: it does not mix, keeps every
/// sample, and adds no imperfections, whatever its index.
pub proof fn fresh_blocks_pass_samples_on(index: usize, sample_rate_gsps: Micro)
    ensures
        ({
            let block = fresh_block(index);
            &&& block.index == index
            &&& block.enabled
            &&& block.mixer_mode == MixerMode::Bypass
            &&& block.output_rate(sample_rate_gsps).equals(sample_rate_gsps * 1000, 1)
            &&& !block.non_idealities.enabled
            &&& block.nyquist_zone.number() == block.planner_zone
            &&& block.planner_zone == 1
        }),
{
}

/// The output rate of a block times its decimation factor is the rate of its tile.
pub proof fn output_rate_times_factor_is_the_tile_rate(block: AdcBlock, sample_rate_gsps: Micro)
    ensures
        ({
            let rate = block.output_rate(sample_rate_gsps);
            &&& rate.wf()
            &&& rate.over * block.decimation.value() == sample_rate_gsps * 1000 * rate.under
        }),
{
    assert(1 <= block.decimation.value() <= 40);
}

/// A stream fits exactly if its clock, the output rate over the samples it carries at a time, is at
/// most 500 MHz.
pub proof fn streams_fit_up_to_500_mhz(block: AdcBlock, sample_rate_gsps: Micro, words: int)
    requires
        words >= 1,
    ensures
        ({
            let rate = block.output_rate(sample_rate_gsps);
            block.stream_fits(sample_rate_gsps, words) <==> rate.over <= 500_000_000 * words
                * rate.under
        }),
{
    assert(1 <= block.decimation.value() <= 40);
}

/// A block planned for a zone has its converter set to the first zone or the second, whichever is
/// of the same parity, so that the spectrum arrives the right way round; nothing else about it
/// changes.
pub proof fn planning_keeps_the_parity(block: AdcBlock, zone_index: u32)
    ensures
        ({
            let after = block.planned_for(zone_index);
            &&& after.planner_zone == zone_index
            &&& 1 <= after.nyquist_zone.number() <= 2
            &&& after.nyquist_zone.number() % 2 == zone_index as int % 2
            &&& after.mixer_mode == block.mixer_mode
            &&& after.nco_freq_mhz == block.nco_freq_mhz
            &&& after.decimation == block.decimation
            &&& after.index == block.index
            &&& after.enabled == block.enabled
        }),
{
}

/// Decimating more, or carrying more samples per clock, never makes a valid output stream
/// invalid.
pub proof fn wider_or_slower_stays_valid(
    rate_gsps: int,
    words: int,
    factor: int,
    more_words: int,
    more_factor: int,
)
    requires
        0 <= words <= more_words,
        0 <= factor <= more_factor,
        rate_gsps * 1000 <= AXI_CLOCK_LIMIT_HZ * words * factor,
    ensures
        rate_gsps * 1000 <= AXI_CLOCK_LIMIT_HZ * more_words * more_factor,
{
    assert(AXI_CLOCK_LIMIT_HZ * words * factor <= AXI_CLOCK_LIMIT_HZ * more_words * more_factor)
        by (nonlinear_arith)
        requires
            0 <= words <= more_words,
            0 <= factor <= more_factor,
            AXI_CLOCK_LIMIT_HZ == 500_000_000,
    ;
}

// ---------------------------------------------------------------------------
// Tiles
// ---------------------------------------------------------------------------

/// A single ADC tile containing two converter blocks, which share its sample rate.
#[derive(Clone, Copy, Debug)]
pub struct AdcTile {
    pub index: usize,
    pub enabled: bool,
    pub sample_rate_gsps: Micro,
    /// Nyquist zone the tile is planned for; each block is set to its own.
    pub nyquist_zone: NyquistZone,
    pub nyquist_zone_index: u32,
    pub pll_enabled: bool,
    pub ref_clk_mhz: Micro,
    pub blocks: [AdcBlock; 2],
    pub sync_group: Option<u8>,
    pub sysref_phase: Micro,
}

/// A tile as it comes up: enabled, at 4 GSPS in the first zone, with its clock made from a
/// 245.76 MHz reference.
pub open spec fn is_fresh_tile(tile: AdcTile, index: usize) -> bool {
    &&& tile.index == index
    &&& tile.enabled
    &&& tile.sample_rate_gsps == 4_000_000
    &&& tile.nyquist_zone == NyquistZone::Zone1
    &&& tile.nyquist_zone_index == 1
    &&& tile.pll_enabled
    &&& tile.ref_clk_mhz == 245_760_000
    &&& tile.blocks@ == seq![fresh_block(0), fresh_block(1)]
    &&& tile.sync_group is None
    &&& tile.sysref_phase == 0
}

/// Results of the auto-tune frequency calculation.
#[derive(Clone, Copy, Debug, PartialEq, Eq, Structural)]
pub struct AutoTuneResult {
    pub target_freq_mhz: Micro,
    pub zone_index: u32,
    pub is_even_zone: bool,
    pub nyquist_zone: NyquistZone,
    pub alias_freq_mhz: Micro,
    pub nco_freq_mhz: Micro,
}

/// The Nyquist zone, counted from one, that a positive frequency lies in.
pub open spec fn zone_of(target: int, nyquist: int) -> int {
    target / nyquist + 1
}

/// Where a frequency of a zone appears after sampling: measured up from the bottom of an odd
/// zone, down from the top of an even one.
pub open spec fn alias_of(target: int, nyquist: int) -> int {
    let zone = zone_of(target, nyquist);
    if zone % 2 == 0 {
        zone * nyquist - target
    } else {
        target - (zone - 1) * nyquist
    }
}

proof fn alias_is_in_band(target: int, nyquist: int)
    requires
        nyquist > 0,
        target > 0,
    ensures
        0 <= alias_of(target, nyquist) <= nyquist,
        zone_of(target, nyquist) >= 1,
        (zone_of(target, nyquist) - 1) * nyquist <= target < zone_of(target, nyquist) * nyquist,
{
    let q = target / nyquist;
    lemma_fundamental_div_mod(target, nyquist);
    lemma_mod_bound(target, nyquist);
    lemma_div_pos_is_pos(target, nyquist);
    assert(nyquist * q == q * nyquist) by (nonlinear_arith);
    assert((q + 1) * nyquist == q * nyquist + nyquist) by (nonlinear_arith);
}

/// What tuning to a frequency gives at a sample rate.
pub open spec fn tuned_at(sample_rate_gsps: Micro, target: Micro) -> AutoTuneResult {
    let nyquist = sample_rate_gsps * 500;
    if nyquist <= 0 || target <= 0 {
        AutoTuneResult {
            target_freq_mhz: target,
            zone_index: 1,
            is_even_zone: false,
            nyquist_zone: NyquistZone::Zone1,
            alias_freq_mhz: target,
            nco_freq_mhz: target,
        }
    } else {
        let zone = zone_of(target as int, nyquist);
        let alias = alias_of(target as int, nyquist);
        AutoTuneResult {
            target_freq_mhz: target,
            zone_index: zone as u32,
            is_even_zone: zone % 2 == 0,
            nyquist_zone: NyquistZone::numbered(zone),
            alias_freq_mhz: alias as Micro,
            nco_freq_mhz: if zone % 2 == 0 {
                (-alias) as Micro
            } else {
                alias as Micro
            },
        }
    }
}

/// The zone a target falls in at a sample rate has a number that fits.
pub open spec fn zone_fits(sample_rate_gsps: Micro, target: Micro) -> bool {
    sample_rate_gsps > 0 && target > 0 ==> zone_of(target as int, sample_rate_gsps * 500)
        <= u32::MAX
}

fn tune(sample_rate_gsps: Micro, target_freq_mhz: Micro) -> (result: AutoTuneResult)
    requires
        rate_in_range(sample_rate_gsps),
        zone_fits(sample_rate_gsps, target_freq_mhz),
    ensures
        result == tuned_at(sample_rate_gsps, target_freq_mhz),
{
    let nyquist: Micro = sample_rate_gsps * 500;
    if nyquist <= 0 || target_freq_mhz <= 0 {
        return AutoTuneResult {
            target_freq_mhz,
            zone_index: 1,
            is_even_zone: false,
            nyquist_zone: NyquistZone::Zone1,
            alias_freq_mhz: target_freq_mhz,
            nco_freq_mhz: target_freq_mhz,
        };
    }
    proof {
        alias_is_in_band(target_freq_mhz as int, nyquist as int);
    }
    let below: Micro = target_freq_mhz / nyquist;
    let zone_index: u32 = below as u32 + 1;
    let is_even_zone: bool = zone_index % 2 == 0;
    let zone: i128 = zone_index as i128;
    assert(0 <= zone * nyquist <= 0x1_0000_0000_0000_0000_0000_0000) by (nonlinear_arith)
        requires
            0 <= zone <= 0xffff_ffff,
            0 < nyquist <= 0x7fff_ffff_ffff_ffff,
    ;
    assert(0 <= (zone - 1) * nyquist <= 0x1_0000_0000_0000_0000_0000_0000) by (nonlinear_arith)
        requires
            1 <= zone <= 0xffff_ffff,
            0 < nyquist <= 0x7fff_ffff_ffff_ffff,
    ;
    let alias: Micro = if is_even_zone {
        (zone * nyquist as i128 - target_freq_mhz as i128) as Micro
    } else {
        (target_freq_mhz as i128 - (zone - 1) * nyquist as i128) as Micro
    };
    AutoTuneResult {
        target_freq_mhz,
        zone_index,
        is_even_zone,
        nyquist_zone: NyquistZone::from_index(zone_index),
        alias_freq_mhz: alias,
        nco_freq_mhz: if is_even_zone {
            -alias
        } else {
            alias
        },
    }
}

impl AdcBlock {
    /// The block set to the zone of a target frequency, with the fine mixer at the NCO that
    /// brings the target to zero.
    pub open spec fn tuned_to(self, sample_rate_gsps: Micro, target: Micro) -> AdcBlock {
        let result = tuned_at(sample_rate_gsps, target);
        AdcBlock {
            nyquist_zone: result.nyquist_zone,
            planner_zone: result.zone_index,
            mixer_mode: MixerMode::FineMix,
            nco_freq_mhz: result.nco_freq_mhz,
            ..self
        }
    }

    /// Tunes the block to a target RF centre frequency and reports what was set.
    pub fn auto_tune(&mut self, tile_sample_rate_gsps: Micro, target_freq_mhz: Micro) -> (result:
        AutoTuneResult)
        requires
            rate_in_range(tile_sample_rate_gsps),
            zone_fits(tile_sample_rate_gsps, target_freq_mhz),
        ensures
            result == tuned_at(tile_sample_rate_gsps, target_freq_mhz),
            *final(self) == old(self).tuned_to(tile_sample_rate_gsps, target_freq_mhz),
    {
        let result: AutoTuneResult = tune(tile_sample_rate_gsps, target_freq_mhz);
        self.nyquist_zone = result.nyquist_zone;
        self.planner_zone = result.zone_index;
        self.mixer_mode = MixerMode::FineMix;
        self.nco_freq_mhz = result.nco_freq_mhz;
        result
    }

    /// Plans the block for a zone, and sets its converter, which only tells the first zone from
    /// the second, to the one of the same parity.
    pub fn select_zone(&mut self, zone_index: u32)
        ensures
            *final(self) == (AdcBlock {
                nyquist_zone: if zone_index % 2 == 0 {
                    NyquistZone::SECOND
                } else {
                    NyquistZone::FIRST
                },
                planner_zone: zone_index,
                ..*old(self)
            }),
            *final(self) == old(self).planned_for(zone_index),
    {
        self.planner_zone = zone_index;
        self.nyquist_zone = if zone_index % 2 == 0 {
            NyquistZone::SECOND
        } else {
            NyquistZone::FIRST
        };
    }
}

impl AdcTile {
    pub fn new(index: usize) -> (tile: Self)
        ensures
            is_fresh_tile(tile, index),
    {
        let tile = AdcTile {
            index,
            enabled: true,
            sample_rate_gsps: 4_000_000,
            nyquist_zone: NyquistZone::Zone1,
            nyquist_zone_index: 1,
            pll_enabled: true,
            ref_clk_mhz: 245_760_000,
            blocks: [AdcBlock::new(0), AdcBlock::new(1)],
            sync_group: None,
            sysref_phase: 0,
        };
        assert(tile.blocks@ =~= seq![fresh_block(0), fresh_block(1)]);
        tile
    }

    /// The width of a Nyquist zone, in MHz.
    pub open spec fn zone_width(&self) -> int {
        self.sample_rate_gsps * 500
    }

    /// Half the sample rate, in MHz.
    pub fn nyquist_bw_mhz(&self) -> (bandwidth: Micro)
        requires
            rate_in_range(self.sample_rate_gsps),
        ensures
            bandwidth == self.sample_rate_gsps * 500,
            bandwidth == self.zone_width(),
    {
        self.sample_rate_gsps * 500
    }

    /// The sample rate in whole hertz.
    pub fn sample_rate_hz(&self) -> (rate: i64)
        requires
            rate_in_range(self.sample_rate_gsps),
        ensures
            rate == self.sample_rate_gsps * 1000,
    {
        self.sample_rate_gsps * 1000
    }

    /// The sample rate in MHz.
    pub fn sample_rate_mhz(&self) -> (rate: Micro)
        requires
            rate_in_range(self.sample_rate_gsps),
        ensures
            rate == self.sample_rate_gsps * 1000,
    {
        self.sample_rate_gsps * 1000
    }

    /// Nyquist zones it takes to cover `span_mhz` from zero.
    pub fn zones_covering(&self, span_mhz: Micro) -> (zones: i128)
        requires
            rate_in_range(self.sample_rate_gsps),
            self.sample_rate_gsps > 0,
            span_mhz >= 0,
        ensures
            (zones - 1) * (self.sample_rate_gsps * 500) < span_mhz <= zones
                * (self.sample_rate_gsps * 500),
    {
        let nyquist: i128 = self.nyquist_bw_mhz() as i128;
        let span: i128 = span_mhz as i128;
        let zones: i128 = (span + (nyquist - 1)) / nyquist;
        proof {
            let x = span + nyquist - 1;
            lemma_fundamental_div_mod(x, nyquist as int);
            lemma_mod_bound(x, nyquist as int);
            let z = zones as int;
            assert((z - 1) * nyquist < span <= z * nyquist) by (nonlinear_arith)
                requires
                    x == nyquist * z + x % (nyquist as int),
                    0 <= x % (nyquist as int) < nyquist,
                    x == span + nyquist - 1,
                    nyquist > 0,
            ;
        }
        zones
    }

    /// What tuning to a frequency gives.
    pub open spec fn tuned(&self, target: Micro) -> AutoTuneResult {
        tuned_at(self.sample_rate_gsps, target)
    }

    /// Calculates the Nyquist zone and the fine mixer NCO frequency for a target RF centre
    /// frequency: the NCO that brings the target's alias to zero.
    pub fn auto_tune(&self, target_freq_mhz: Micro) -> (result: AutoTuneResult)
        requires
            rate_in_range(self.sample_rate_gsps),
            zone_fits(self.sample_rate_gsps, target_freq_mhz),
        ensures
            result == self.tuned(target_freq_mhz),
    {
        tune(self.sample_rate_gsps, target_freq_mhz)
    }

    /// Whether the sample rate can be made: either the clock comes from outside, or a whole
    /// multiple of the reference clock gives it.
    pub open spec fn pll_is_valid(&self) -> bool {
        !self.pll_enabled || self.ref_clk_mhz > 0 && self.sample_rate_gsps > 0 && exists|
            multiplier: int,
        |
            #[trigger] (self.ref_clk_mhz * multiplier) == self.sample_rate_gsps * 1000
    }

    /// The multiplier between reference clock and sample rate, or `None` if the loop is on and
    /// no whole multiplier gives the rate.
    pub fn validate_pll(&self) -> (multiplier: Option<i128>)
        ensures
            multiplier is Some <==> self.pll_is_valid(),
            multiplier is Some && self.pll_enabled ==> multiplier->0 > 0 && self.ref_clk_mhz
                * multiplier->0 == self.sample_rate_gsps * 1000,
            !self.pll_enabled ==> multiplier == Some(1i128),
    {
        if !self.pll_enabled {
            return Some(1);
        }
        if self.ref_clk_mhz <= 0 || self.sample_rate_gsps <= 0 {
            return None;
        }
        let rate: i128 = self.sample_rate_gsps as i128 * 1000;
        let clock: i128 = self.ref_clk_mhz as i128;
        let ghost r = rate as int;
        let ghost c = clock as int;
        proof {
            lemma_fundamental_div_mod(r, c);
            lemma_div_pos_is_pos(r, c);
        }
        if rate % clock == 0 {
            let multiplier: i128 = rate / clock;
            proof {
                assert(c * (r / c) == r);
                assert(multiplier > 0) by (nonlinear_arith)
                    requires
                        c * multiplier == r,
                        r > 0,
                        c > 0,
                        multiplier >= 0,
                ;
                assert(self.ref_clk_mhz * (multiplier as int) == self.sample_rate_gsps * 1000);
            }
            Some(multiplier)
        } else {
            proof {
                if self.pll_is_valid() {
                    let m = choose|m: int|
                        #[trigger] (self.ref_clk_mhz * m) == self.sample_rate_gsps * 1000;
                    lemma_mod_multiples_basic(m, c);
                    assert(c * m == m * c) by (nonlinear_arith);
                }
            }
            None
        }
    }
}

// ---------------------------------------------------------------------------
// NCO
// ---------------------------------------------------------------------------

/// A frequency wrapped into the half-open range of half a sample rate either side of zero.
pub open spec fn wrapped_freq(freq: int, fs: int) -> int {
    ((2 * freq + fs) % (2 * fs) - fs) / 2
}

/// What an NCO request resolves to.
pub open spec fn resolved_nco(requested: int, fs: int, is_even_zone: bool) -> int {
    if fs <= 0 || (-fs <= 2 * requested <= fs) {
        requested
    } else if is_even_zone {
        -wrapped_freq(requested, fs)
    } else {
        wrapped_freq(requested, fs)
    }
}

proof fn wrapping_removes_whole_turns(freq: int, fs: int)
    requires
        fs > 0,
    ensures
        -fs <= 2 * wrapped_freq(freq, fs) < fs,
        exists|k: int| freq == wrapped_freq(freq, fs) + #[trigger] (k * fs),
{
    let x = 2 * freq + fs;
    let m = 2 * fs;
    lemma_fundamental_div_mod(x, m);
    lemma_mod_bound(x, m);
    let k = x / m;
    let r = x % m;
    assert(m * k == 2 * (k * fs)) by (nonlinear_arith)
        requires
            m == 2 * fs,
    ;
    assert(r - fs == 2 * (freq - k * fs));
    assert(wrapped_freq(freq, fs) == freq - k * fs);
    assert(freq == wrapped_freq(freq, fs) + k * fs);
}

/// Resolves a requested NCO frequency to the value the mixer actually runs at.
///
/// The NCO is periodic in the sample rate, so a request beyond half of it wraps; on a block in
/// an even zone the wrapped frequency changes sign. A request within half the sample rate
/// passes through untouched.
pub fn resolve_nco_freq(requested_mhz: Micro, fs_mhz: Micro, is_even_zone: bool) -> (resolved: Micro)
    ensures
        resolved == resolved_nco(requested_mhz as int, fs_mhz as int, is_even_zone),
{
    let requested: i128 = requested_mhz as i128;
    let fs: i128 = fs_mhz as i128;
    if fs <= 0 || (-fs <= 2 * requested && 2 * requested <= fs) {
        return requested_mhz;
    }
    proof {
        wrapping_removes_whole_turns(requested as int, fs as int);
    }
    let turned: i128 = 2 * requested + fs;
    let turns: i128 = div_floor(turned, 2 * fs);
    proof {
        lemma_fundamental_div_mod(turned as int, 2 * fs as int);
        lemma_mod_bound(turned as int, 2 * fs as int);
    }
    let ghost t = turns as int;
    let ghost m = 2 * fs as int;
    assert(m * t == turned - turned as int % m);
    let rest: i128 = turned - 2 * fs * turns;
    let wrapped: i128 = (rest - fs) / 2;
    proof {
        let k = choose|k: int| requested == wrapped_freq(requested as int, fs as int) + #[trigger] (k * fs);
        assert(rest == turned as int % m);
        assert((rest - fs) % 2 == 0) by {
            assert(m * t == 2 * (fs * t)) by (nonlinear_arith)
                requires
                    m == 2 * fs,
            ;
        }
        assert(wrapped == wrapped_freq(requested as int, fs as int));
    }
    if is_even_zone {
        (-wrapped) as Micro
    } else {
        wrapped as Micro
    }
}

/// A resolved NCO never runs beyond half the sample rate.
pub proof fn resolved_nco_is_in_band(requested: int, fs: int, is_even_zone: bool)
    requires
        fs > 0,
    ensures
        -fs <= 2 * resolved_nco(requested, fs, is_even_zone) <= fs,
{
    wrapping_removes_whole_turns(requested, fs);
}

/// Resolving twice changes nothing more.
pub proof fn resolving_twice_is_resolving_once(requested: int, fs: int, is_even_zone: bool)
    ensures
        resolved_nco(resolved_nco(requested, fs, is_even_zone), fs, is_even_zone) == resolved_nco(
            requested,
            fs,
            is_even_zone,
        ),
{
    if fs > 0 {
        resolved_nco_is_in_band(requested, fs, is_even_zone);
    }
}

/// The sampled mixer cannot tell a resolved NCO from the request: on an odd zone they differ by
/// whole sample rates, on an even zone a wrapped request by whole sample rates and its sign.
pub proof fn resolved_nco_is_an_alias(requested: int, fs: int, is_even_zone: bool)
    requires
        fs > 0,
    ensures
        ({
            let resolved = resolved_nco(requested, fs, is_even_zone);
            exists|k: int|
                requested == resolved + #[trigger] (k * fs) || requested == -resolved + k * fs
        }),
        ({
            let resolved = resolved_nco(requested, fs, is_even_zone);
            let wraps = 2 * requested > fs || 2 * requested < -fs;
            &&& !wraps ==> resolved == requested
            &&& wraps && !is_even_zone ==> exists|k: int|
                requested == resolved + #[trigger] (k * fs)
            &&& wraps && is_even_zone ==> exists|k: int|
                requested == -resolved + #[trigger] (k * fs)
            &&& wraps && !is_even_zone ==> 2 * resolved < fs
            &&& wraps && is_even_zone ==> 2 * resolved > -fs
        }),
{
    wrapping_removes_whole_turns(requested, fs);
    let k = choose|k: int| requested == wrapped_freq(requested, fs) + #[trigger] (k * fs);
    assert(requested == requested + 0 * fs);
    assert(requested == wrapped_freq(requested, fs) + k * fs);
    assert(requested == -(-wrapped_freq(requested, fs)) + k * fs);
}

/// Asking for a sample rate more or less changes nothing, once a request has to wrap.
pub proof fn requests_a_sample_rate_apart_resolve_alike(
    requested: int,
    fs: int,
    is_even_zone: bool,
)
    requires
        fs > 0,
        2 * requested > fs,
    ensures
        resolved_nco(requested + fs, fs, is_even_zone) == resolved_nco(requested, fs, is_even_zone),
        resolved_nco(requested, fs, true) == -resolved_nco(requested, fs, false),
{
    let x = 2 * requested + fs;
    let m = 2 * fs;
    lemma_mod_add_multiples_vanish(x, m);
}

/// Everything auto-tune emits is within half the sample rate, so the NCO runs at exactly the
/// frequency it asks for.
pub proof fn tuned_nco_passes_through(tile: AdcTile, target: Micro, is_even_zone: bool)
    requires
        rate_in_range(tile.sample_rate_gsps),
        tile.sample_rate_gsps > 0,
        target > 0,
    ensures
        resolved_nco(
            tile.tuned(target).nco_freq_mhz as int,
            tile.sample_rate_gsps * 1000,
            is_even_zone,
        ) == tile.tuned(target).nco_freq_mhz,
{
    alias_is_in_band(target as int, tile.sample_rate_gsps * 500);
}

/// Auto-tune folds every positive target into the band from zero to half the sample rate.
pub proof fn tuned_alias_is_in_band(tile: AdcTile, target: Micro)
    requires
        rate_in_range(tile.sample_rate_gsps),
        tile.sample_rate_gsps > 0,
        target > 0,
    ensures
        0 <= tile.tuned(target).alias_freq_mhz <= tile.sample_rate_gsps * 500,
{
    alias_is_in_band(target as int, tile.sample_rate_gsps * 500);
}

/// What tuning reports hangs together. The zone is the one whose bounds hold the target, and is
/// even as its number is; the named zone has that number as far as zones are named. The alias
/// lies within half the sample rate, is the magnitude of the NCO, which is negative in an even
/// zone only, and is a whole number of sample rates away from the target or from its mirror
/// image. A target below half the sample rate is its own alias.
pub proof fn tuning_reports_the_alias(tile: AdcTile, target: Micro)
    requires
        rate_in_range(tile.sample_rate_gsps),
        tile.sample_rate_gsps > 0,
        target > 0,
        zone_fits(tile.sample_rate_gsps, target),
    ensures
        ({
            let tuned = tile.tuned(target);
            let half = tile.sample_rate_gsps * 500;
            let fs = tile.sample_rate_gsps * 1000;
            &&& tuned.target_freq_mhz == target
            &&& (tuned.zone_index - 1) * half <= target < tuned.zone_index * half
            &&& tuned.is_even_zone == (tuned.zone_index % 2 == 0)
            &&& tuned.zone_index <= 8 ==> tuned.nyquist_zone.number() == tuned.zone_index
            &&& tuned.zone_index > 8 ==> tuned.nyquist_zone.number() == 8
            &&& 0 <= tuned.alias_freq_mhz <= half
            &&& tuned.is_even_zone ==> tuned.nco_freq_mhz == -tuned.alias_freq_mhz
            &&& !tuned.is_even_zone ==> tuned.nco_freq_mhz == tuned.alias_freq_mhz
            &&& target < half ==> tuned.alias_freq_mhz == target
            &&& exists|k: int|
                target == (if tuned.zone_index % 2 == 0 {
                    -tuned.alias_freq_mhz
                } else {
                    tuned.alias_freq_mhz as int
                }) + #[trigger] (k * fs)
        }),
{
    let half = tile.sample_rate_gsps * 500;
    let tuned = tile.tuned(target);
    alias_is_in_band(target as int, half);
    tuned_alias_is_an_alias(tile, target);
    let zone = zone_of(target as int, half);
    if 1 <= zone <= 8 {
        zone_numbers_round_trip(tuned.nyquist_zone, zone);
    }
    if target < half {
        assert(zone == 1) by (nonlinear_arith)
            requires
                (zone - 1) * half <= target,
                target < half,
                zone >= 1,
                half > 0,
        ;
        assert((zone - 1) * half == 0) by (nonlinear_arith)
            requires
                zone == 1,
        ;
    }
    let k = choose|k: int| target == tuned.nco_freq_mhz + #[trigger] (k * (tile.sample_rate_gsps * 1000));
    assert(target == (if tuned.zone_index % 2 == 0 {
        -tuned.alias_freq_mhz
    } else {
        tuned.alias_freq_mhz as int
    }) + k * (tile.sample_rate_gsps * 1000));
}

/// Two targets a sample rate apart sound the same once sampled: they have the same alias and the
/// same NCO, two zones apart. Two targets that mirror each other in a multiple of the sample rate
/// have the same alias and opposite NCOs.
pub proof fn aliases_repeat_and_mirror(tile: AdcTile, target: Micro, other: Micro, k: int)
    requires
        rate_in_range(tile.sample_rate_gsps),
        tile.sample_rate_gsps > 0,
        target > 0,
        other > 0,
        zone_fits(tile.sample_rate_gsps, target),
        zone_fits(tile.sample_rate_gsps, other),
        target as int % (tile.sample_rate_gsps * 500) != 0,
    ensures
        ({
            let fs = tile.sample_rate_gsps * 1000;
            let (a, b) = (tile.tuned(target), tile.tuned(other));
            &&& other == target + fs ==> b.alias_freq_mhz == a.alias_freq_mhz && b.nco_freq_mhz
                == a.nco_freq_mhz && b.zone_index == a.zone_index + 2
            &&& other == k * fs - target ==> b.alias_freq_mhz == a.alias_freq_mhz
                && b.nco_freq_mhz == -a.nco_freq_mhz
        }),
{
    let half = tile.sample_rate_gsps * 500;
    let fs = tile.sample_rate_gsps * 1000;
    let (t, o) = (target as int, other as int);
    let z = zone_of(t, half);
    alias_is_in_band(t, half);
    alias_is_in_band(o, half);
    if o == t + fs {
        let (q, r) = (t / half, t % half);
        lemma_fundamental_div_mod(t, half);
        lemma_mod_bound(t, half);
        assert(half * q + r + 2 * half == (q + 2) * half + r) by (nonlinear_arith);
        lemma_fundamental_div_mod_converse(o, half, q + 2, r);
        assert((z + 2) * half == z * half + fs) by (nonlinear_arith)
            requires
                fs == 2 * half,
        ;
        assert((z + 1) * half == (z - 1) * half + fs) by (nonlinear_arith)
            requires
                fs == 2 * half,
        ;
    }
    if o == k * fs - t {
        lemma_fundamental_div_mod(t, half);
        lemma_mod_bound(t, half);
        let (q, r) = (t / half, t % half);
        assert(o == (2 * k - q - 1) * half + (half - r)) by (nonlinear_arith)
            requires
                o == k * fs - t,
                fs == 2 * half,
                t == half * q + r,
        ;
        lemma_fundamental_div_mod_converse(o, half, 2 * k - q - 1, half - r);
        let w = 2 * k - q;
        assert(zone_of(o, half) == w);
        assert(w * half == k * fs - q * half && (w - 1) * half == k * fs - q * half - half)
            by (nonlinear_arith)
            requires
                w == 2 * k - q,
                fs == 2 * half,
        ;
        assert((q + 1) * half == q * half + half) by (nonlinear_arith);
        assert(q * half == half * q) by (nonlinear_arith);
        assert(w % 2 == q % 2);
    }
}

/// Without a sample rate, or for a target that is no positive frequency, there is nothing to
/// fold: the target itself is reported, in the first zone.
pub proof fn nothing_to_fold_is_reported_as_it_is(tile: AdcTile, target: Micro)
    requires
        tile.sample_rate_gsps <= 0 || target <= 0,
    ensures
        ({
            let tuned = tile.tuned(target);
            &&& tuned.alias_freq_mhz == target
            &&& tuned.nco_freq_mhz == target
            &&& tuned.zone_index == 1
            &&& !tuned.is_even_zone
            &&& tuned.nyquist_zone.number() == 1
        }),
{
}

/// A tuned block runs the fine mixer at the NCO reported, planned for the zone reported, and is
/// otherwise the block it was.
pub proof fn tuning_a_block_touches_only_its_mixer(
    block: AdcBlock,
    tile: AdcTile,
    target: Micro,
)
    ensures
        ({
            let tuned = block.tuned_to(tile.sample_rate_gsps, target);
            let report = tile.tuned(target);
            &&& tuned.mixer_mode == MixerMode::FineMix
            &&& tuned.nco_freq_mhz == report.nco_freq_mhz
            &&& tuned.planner_zone == report.zone_index
            &&& tuned.nyquist_zone == report.nyquist_zone
            &&& tuned.index == block.index
            &&& tuned.enabled == block.enabled
            &&& tuned.decimation == block.decimation
            &&& tuned.calibration_mode == block.calibration_mode
            &&& tuned.non_idealities == block.non_idealities
        }),
{
}

/// Folding is faithful: the target and its alias differ by whole sample rates, after changing
/// sign in an even zone.
pub proof fn tuned_alias_is_an_alias(tile: AdcTile, target: Micro)
    requires
        rate_in_range(tile.sample_rate_gsps),
        tile.sample_rate_gsps > 0,
        target > 0,
    ensures
        exists|k: int|
            target == tile.tuned(target).nco_freq_mhz + #[trigger] (k * (tile.sample_rate_gsps
                * 1000)),
{
    let nyquist = tile.sample_rate_gsps * 500;
    let fs = tile.sample_rate_gsps * 1000;
    let zone = zone_of(target as int, nyquist);
    alias_is_in_band(target as int, nyquist);
    if zone % 2 == 0 {
        let k = zone / 2;
        assert(zone == 2 * k);
        assert(zone * nyquist == k * fs) by (nonlinear_arith)
            requires
                zone == 2 * k,
                fs == 2 * nyquist,
        ;
        assert(target == tile.tuned(target).nco_freq_mhz + k * fs);
    } else {
        let k = (zone - 1) / 2;
        assert(zone - 1 == 2 * k);
        assert((zone - 1) * nyquist == k * fs) by (nonlinear_arith)
            requires
                zone - 1 == 2 * k,
                fs == 2 * nyquist,
        ;
        assert(target == tile.tuned(target).nco_freq_mhz + k * fs);
    }
}

// ---------------------------------------------------------------------------
// The whole device
// ---------------------------------------------------------------------------

/// Complete converter configuration for the ZU48DR.
#[derive(Clone, Copy, Debug)]
pub struct RfdcConfig {
    pub adc_tiles: [AdcTile; 4],
}

impl Default for RfdcConfig {
    fn default() -> (config: Self)
        ensures
            forall|t: int| 0 <= t < 4 ==> is_fresh_tile(#[trigger] config.adc_tiles[t], t as usize),
    {
        RfdcConfig {
            adc_tiles: [AdcTile::new(0), AdcTile::new(1), AdcTile::new(2), AdcTile::new(3)],
        }
    }
}

/// The enabled blocks of enabled tiles among the first `n`, two to a tile, in order.
pub open spec fn active_among(config: RfdcConfig, n: int) -> Seq<(usize, usize, AdcBlock)>
    decreases n,
{
    if n <= 0 {
        Seq::empty()
    } else {
        let t = (n - 1) / 2;
        let b = (n - 1) % 2;
        let tile = config.adc_tiles[t];
        let before = active_among(config, n - 1);
        if tile.enabled && tile.blocks[b].enabled {
            before.push((t as usize, b as usize, tile.blocks[b]))
        } else {
            before
        }
    }
}

impl RfdcConfig {
    /// The enabled blocks of the enabled tiles, as tile index, block index and block.
    pub fn active_adc_blocks(&self) -> (active: Vec<(usize, usize, AdcBlock)>)
        ensures
            active@ == active_among(*self, 8),
    {
        let mut active: Vec<(usize, usize, AdcBlock)> = Vec::new();
        let mut n: usize = 0;
        while n < 8
            invariant
                n <= 8,
                active@ == active_among(*self, n as int),
            decreases 8 - n,
        {
            let t: usize = n / 2;
            let b: usize = n % 2;
            if self.adc_tiles[t].enabled && self.adc_tiles[t].blocks[b].enabled {
                active.push((t, b, self.adc_tiles[t].blocks[b]));
            }
            n += 1;
        }
        active
    }

    /// The block at a place if it is to be processed: it and its tile must be enabled.
    pub fn active_block(&self, tile: usize, block: usize) -> (found: Option<&AdcBlock>)
        requires
            tile < 4,
            block < 2,
        ensures
            found is Some <==> self.adc_tiles[tile as int].enabled
                && self.adc_tiles[tile as int].blocks[block as int].enabled,
            found is Some ==> *found->0 == self.adc_tiles[tile as int].blocks[block as int],
    {
        if self.adc_tiles[tile].enabled && self.adc_tiles[tile].blocks[block].enabled {
            Some(&self.adc_tiles[tile].blocks[block])
        } else {
            None
        }
    }

    /// A block by its place.
    pub fn adc_block(&self, tile: usize, block: usize) -> (found: &AdcBlock)
        requires
            tile < 4,
            block < 2,
        ensures
            *found == self.adc_tiles[tile as int].blocks[block as int],
    {
        &self.adc_tiles[tile].blocks[block]
    }

    /// A block by its place, to change it.
    pub fn adc_block_mut(&mut self, tile: usize, block: usize) -> (found: &mut AdcBlock)
        requires
            tile < 4,
            block < 2,
        ensures
            *found == old(self).adc_tiles[tile as int].blocks[block as int],
            final(self).adc_tiles[tile as int].blocks[block as int] == *final(found),
            forall|b: int|
                0 <= b < 2 && b != block ==> (#[trigger] final(self).adc_tiles[tile as int].blocks[b])
                    == old(self).adc_tiles[tile as int].blocks[b],
            forall|t: int|
                0 <= t < 4 && t != tile ==> #[trigger] final(self).adc_tiles[t] == old(
                    self).adc_tiles[t],
            final(self).adc_tiles[tile as int] == (AdcTile {
                blocks: final(self).adc_tiles[tile as int].blocks,
                ..old(self).adc_tiles[tile as int]
            }),
    {
        &mut self.adc_tiles[tile].blocks[block]
    }
}

/// Active blocks come in the order of their places, each once.
pub proof fn active_blocks_are_in_order(config: RfdcConfig, n: int, i: int, j: int)
    requires
        0 <= n <= 8,
        0 <= i < j < active_among(config, n).len(),
    ensures
        ({
            let (a, b) = (active_among(config, n)[i], active_among(config, n)[j]);
            2 * a.0 + a.1 < 2 * b.0 + b.1
        }),
        active_among(config, n)[j].0 < 4,
        active_among(config, n)[j].1 < 2,
    decreases n,
{
    if n > 0 {
        let before = active_among(config, n - 1);
        let last = active_among(config, n)[j];
        if j < before.len() {
            active_blocks_are_in_order(config, n - 1, i, j);
        } else {
            let a = active_among(config, n)[i];
            assert(before.contains(a)) by {
                assert(before[i] == a);
            }
            active_means_enabled(config, n - 1, a.0, a.1, a.2);
        }
    }
}

/// A block is active exactly when it and its tile are enabled.
pub proof fn active_means_enabled(config: RfdcConfig, n: int, t: usize, b: usize, block: AdcBlock)
    requires
        0 <= n <= 8,
    ensures
        active_among(config, n).contains((t, b, block)) <==> t < 4 && b < 2 && 2 * t + b < n
            && config.adc_tiles[t as int].enabled && config.adc_tiles[t as int].blocks[b as int].enabled
            && block == config.adc_tiles[t as int].blocks[b as int],
    decreases n,
{
    let item = (t, b, block);
    if n > 0 {
        active_means_enabled(config, n - 1, t, b, block);
        let before = active_among(config, n - 1);
        let after = active_among(config, n);
        let ti = (n - 1) / 2;
        let bi = (n - 1) % 2;
        let tile = config.adc_tiles[ti];
        if tile.enabled && tile.blocks[bi].enabled {
            let new = (ti as usize, bi as usize, tile.blocks[bi]);
            assert(after == before.push(new));
            if before.contains(item) {
                let i = choose|i: int| 0 <= i < before.len() && before[i] == item;
                assert(after[i] == item);
            }
            if item == new {
                assert(after[before.len() as int] == item);
            }
            if after.contains(item) && item != new {
                let i = choose|i: int| 0 <= i < after.len() && after[i] == item;
                assert(before[i] == item);
            }
        }
    }
}

/// Two zones are as wide as the rate at which a block that does not decimate puts samples out.
pub proof fn two_zones_make_the_sample_rate(tile: AdcTile, block: AdcBlock)
    requires
        block.decimation == DecimationFactor::X1,
    ensures
        ({
            let rate = block.output_rate(tile.sample_rate_gsps);
            2 * tile.zone_width() * rate.under == rate.over
        }),
{
    assert(block.decimation.value() == 1);
    assert(block.output_rate(tile.sample_rate_gsps).under == 1);
}

} // verus!
