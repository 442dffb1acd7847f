//! Measured two-ports: the `S2P` model and the Touchstone files it is read from.

use vstd::prelude::*;
use vstd::seq_lib::*;
use crate::components::{interp_table, interpolated, table_within_limit, whole};
use crate::text::{
    a_text_without_separators_is_one_piece, chars_of, pieces, pieces_of_parted_texts, split_on, string_of, to_uppercase, trim, trimmed, uppercase, views, words,
    words_of,
};
use crate::units::{within_limit, Micro, Ratio, MICRO_LIMIT, UNIT};

verus! {

// ---------------------------------------------------------------------------
// The model
// ---------------------------------------------------------------------------

/// Touchstone 2-port S-parameter component model.
#[derive(Clone, Debug)]
pub struct S2pModel {
    pub name: String,
    /// S21 lookup table: (frequency_mhz, gain_db, phase_deg).
    pub s21_table: Vec<(Micro, Micro, Micro)>,
    /// S11 magnitude lookup table: (frequency_mhz, return_loss_db).
    pub s11_table: Vec<(Micro, Micro)>,
    /// S22 magnitude lookup table: (frequency_mhz, return_loss_db).
    pub s22_table: Vec<(Micro, Micro)>,
    /// Noise figure in dB.
    pub noise_figure_db: Micro,
    /// OIP3 in dBm.
    pub oip3_dbm: Micro,
    /// Whether the measured S21 phase is applied. Off makes the block zero-phase.
    pub use_measured_phase: bool,
}

/// What a saved graph that does not say so has the measured phase set to.
pub fn default_true() -> (value: bool)
    ensures
        value,
{
    true
}

impl Default for S2pModel {
    fn default() -> (model: Self)
        ensures
            model.name@ == "Generic S2P Block"@,
            model.s21_table@ == seq![
                (10_000_000i64, (-500_000) as Micro, 0i64),
                (500_000_000i64, (-800_000) as Micro, (-12_000_000) as Micro),
                (1_000_000_000i64, (-1_200_000) as Micro, (-25_000_000) as Micro),
                (2_000_000_000i64, (-2_000_000) as Micro, (-51_000_000) as Micro),
                (4_000_000_000i64, (-3_500_000) as Micro, (-104_000_000) as Micro),
                (6_000_000_000i64, (-6_000_000) as Micro, (-158_000_000) as Micro),
            ],
            model.s11_table@ == seq![
                (10_000_000i64, (-22_000_000) as Micro),
                (1_000_000_000i64, (-20_000_000) as Micro),
                (6_000_000_000i64, (-12_000_000) as Micro),
            ],
            model.s22_table@ == seq![
                (10_000_000i64, (-22_000_000) as Micro),
                (1_000_000_000i64, (-19_000_000) as Micro),
                (6_000_000_000i64, (-11_000_000) as Micro),
            ],
            model.noise_figure_db == 1_500_000,
            model.oip3_dbm == 35 * UNIT,
            model.use_measured_phase,
    {
        let s21_table: Vec<(Micro, Micro, Micro)> = vec![
            (10_000_000, -500_000, 0),
            (500_000_000, -800_000, -12_000_000),
            (1_000_000_000, -1_200_000, -25_000_000),
            (2_000_000_000, -2_000_000, -51_000_000),
            (4_000_000_000, -3_500_000, -104_000_000),
            (6_000_000_000, -6_000_000, -158_000_000),
        ];
        let s11_table: Vec<(Micro, Micro)> = vec![
            (10_000_000, -22_000_000),
            (1_000_000_000, -20_000_000),
            (6_000_000_000, -12_000_000),
        ];
        let s22_table: Vec<(Micro, Micro)> = vec![
            (10_000_000, -22_000_000),
            (1_000_000_000, -19_000_000),
            (6_000_000_000, -11_000_000),
        ];
        let model = S2pModel {
            name: "Generic S2P Block".to_owned(),
            s21_table,
            s11_table,
            s22_table,
            noise_figure_db: 1_500_000,
            oip3_dbm: 35_000_000,
            use_measured_phase: true,
        };
        assert(model.s21_table@ =~= seq![
            (10_000_000i64, (-500_000) as Micro, 0i64),
            (500_000_000i64, (-800_000) as Micro, (-12_000_000) as Micro),
            (1_000_000_000i64, (-1_200_000) as Micro, (-25_000_000) as Micro),
            (2_000_000_000i64, (-2_000_000) as Micro, (-51_000_000) as Micro),
            (4_000_000_000i64, (-3_500_000) as Micro, (-104_000_000) as Micro),
            (6_000_000_000i64, (-6_000_000) as Micro, (-158_000_000) as Micro),
        ]);
        assert(model.s11_table@ =~= seq![
            (10_000_000i64, (-22_000_000) as Micro),
            (1_000_000_000i64, (-20_000_000) as Micro),
            (6_000_000_000i64, (-12_000_000) as Micro),
        ]);
        assert(model.s22_table@ =~= seq![
            (10_000_000i64, (-22_000_000) as Micro),
            (1_000_000_000i64, (-19_000_000) as Micro),
            (6_000_000_000i64, (-11_000_000) as Micro),
        ]);
        model
    }
}

/// Half a turn, and a whole one, in millionths of a degree.
pub const HALF_TURN: Micro = 180_000_000;

pub const FULL_TURN: Micro = 360_000_000;

/// Whole turns added to the phase of point `k` so that no step between neighbours jumps by more
/// than half a turn where one correction can prevent it.
pub open spec fn turns(table: Seq<(Micro, Micro, Micro)>, k: int) -> int
    decreases k,
{
    if k <= 0 {
        0
    } else {
        let before = turns(table, k - 1);
        let step = table[k].2 - table[k - 1].2;
        if step > HALF_TURN {
            before - 1
        } else if step < -HALF_TURN {
            before + 1
        } else {
            before
        }
    }
}

/// The phase of point `k` with whole turns removed or added.
pub open spec fn unwrapped_phase(table: Seq<(Micro, Micro, Micro)>, k: int) -> int {
    table[k].2 + turns(table, k) * FULL_TURN
}

/// The S21 phases as a (frequency, phase) table without jumps.
pub open spec fn unwrapped_table(table: Seq<(Micro, Micro, Micro)>) -> Seq<(Micro, Micro)> {
    Seq::new(table.len(), |k: int| (table[k].0, unwrapped_phase(table, k) as Micro))
}

/// The S21 gains as a (frequency, gain) table.
pub open spec fn gain_table(table: Seq<(Micro, Micro, Micro)>) -> Seq<(Micro, Micro)> {
    table.map_values(|p: (Micro, Micro, Micro)| (p.0, p.1))
}

/// Longest S21 table the exact phase arithmetic covers.
pub const TABLE_LIMIT: usize = 1_000_000_000;

/// The entries are small enough for exact arithmetic, also after unwrapping.
pub open spec fn s21_within_limit(table: Seq<(Micro, Micro, Micro)>) -> bool {
    &&& table.len() <= TABLE_LIMIT
    &&& forall|i: int|
        0 <= i < table.len() ==> {
            &&& within_limit((#[trigger] table[i]).0)
            &&& within_limit(table[i].1)
            &&& -MICRO_LIMIT / 10 <= table[i].2 <= MICRO_LIMIT / 10
        }
}

proof fn turns_are_few(table: Seq<(Micro, Micro, Micro)>, k: int)
    requires
        0 <= k,
    ensures
        -k <= turns(table, k) <= k,
    decreases k,
{
    if k > 0 {
        turns_are_few(table, k - 1);
    }
}

/// Unwrapping leaves every phase where it was on the circle.
pub proof fn unwrapping_keeps_the_angle(table: Seq<(Micro, Micro, Micro)>, k: int)
    requires
        0 <= k < table.len(),
    ensures
        (unwrapped_phase(table, k) - table[k].2) % (FULL_TURN as int) == 0,
{
    let t = turns(table, k);
    assert((t * FULL_TURN) % (FULL_TURN as int) == 0) by (nonlinear_arith);
}

/// With phases reported within half a turn of zero, unwrapping leaves no step of more than half
/// a turn between neighbours.
pub proof fn unwrapping_removes_jumps(table: Seq<(Micro, Micro, Micro)>, k: int)
    requires
        0 < k < table.len(),
        -HALF_TURN <= table[k - 1].2 <= HALF_TURN,
        -HALF_TURN <= table[k].2 <= HALF_TURN,
    ensures
        -HALF_TURN <= unwrapped_phase(table, k) - unwrapped_phase(table, k - 1) <= HALF_TURN,
{
    let a = turns(table, k - 1);
    let b = turns(table, k);
    assert(b * FULL_TURN - a * FULL_TURN == (b - a) * FULL_TURN) by (nonlinear_arith);
}

impl S2pModel {
    /// Gain in dB at a frequency.
    pub fn s21_gain_at(&self, freq_mhz: Micro) -> (gain_db: Ratio)
        requires
            s21_within_limit(self.s21_table@),
            within_limit(freq_mhz),
        ensures
            gain_db == interpolated(gain_table(self.s21_table@), freq_mhz as int),
    {
        let mut gains: Vec<(Micro, Micro)> = Vec::new();
        let mut i: usize = 0;
        while i < self.s21_table.len()
            invariant
                i <= self.s21_table.len(),
                gains@ == gain_table(self.s21_table@).take(i as int),
            decreases self.s21_table.len() - i,
        {
            let (f, m, _) = self.s21_table[i];
            gains.push((f, m));
            assert(gains@ =~= gain_table(self.s21_table@).take(i + 1));
            i += 1;
        }
        assert(gains@ =~= gain_table(self.s21_table@));
        assert(table_within_limit(gains@)) by {
            assert forall|j: int| 0 <= j < gains@.len() implies within_limit(#[trigger] gains@[j].0)
                && within_limit(gains@[j].1) by {
                assert(within_limit(self.s21_table@[j].0));
            }
        }
        interp_table(&gains, freq_mhz)
    }

    /// Phase in degrees at a frequency, unwrapped before interpolating so that a wrap between
    /// two points does not read as a jump.
    pub fn s21_phase_at(&self, freq_mhz: Micro) -> (phase_deg: Ratio)
        requires
            s21_within_limit(self.s21_table@),
            within_limit(freq_mhz),
        ensures
            phase_deg == interpolated(unwrapped_table(self.s21_table@), freq_mhz as int),
    {
        let ghost table = self.s21_table@;
        let mut phases: Vec<(Micro, Micro)> = Vec::new();
        let mut offset: Micro = 0;
        let mut i: usize = 0;
        while i < self.s21_table.len()
            invariant
                table == self.s21_table@,
                s21_within_limit(table),
                i <= self.s21_table.len(),
                offset == turns(table, i - 1) * FULL_TURN,
                phases@ == unwrapped_table(table).take(i as int),
                forall|j: int| 0 <= j < i ==> within_limit(#[trigger] phases@[j].0) && within_limit(phases@[j].1),
            decreases self.s21_table.len() - i,
        {
            let (f, _, p) = self.s21_table[i];
            proof {
                assert(within_limit(table[i as int].0));
                turns_are_few(table, i as int);
                if i > 0 {
                    turns_are_few(table, i - 1);
                    assert(within_limit(table[i - 1].0));
                    let before = turns(table, i - 1);
                    assert((before - 1) * FULL_TURN == before * FULL_TURN - FULL_TURN
                        && (before + 1) * FULL_TURN == before * FULL_TURN + FULL_TURN)
                        by (nonlinear_arith);
                    assert(-360_000_000_000_000_000 <= before * FULL_TURN <= 360_000_000_000_000_000)
                        by (nonlinear_arith)
                        requires
                            -1_000_000_000 <= before <= 1_000_000_000,
                            FULL_TURN == 360_000_000,
                    ;
                }
                let now = turns(table, i as int);
                assert(-360_000_000_000_000_000 <= now * FULL_TURN <= 360_000_000_000_000_000)
                    by (nonlinear_arith)
                    requires
                        -1_000_000_000 <= now <= 1_000_000_000,
                        FULL_TURN == 360_000_000,
                ;
            }
            if i > 0 {
                let step: Micro = p - self.s21_table[i - 1].2;
                if step > HALF_TURN {
                    offset -= FULL_TURN;
                } else if step < -HALF_TURN {
                    offset += FULL_TURN;
                }
            }
            phases.push((f, p + offset));
            assert(phases@ =~= unwrapped_table(table).take(i + 1));
            i += 1;
        }
        assert(phases@ =~= unwrapped_table(table));
        interp_table(&phases, freq_mhz)
    }

    /// Input return loss in dB at a frequency (negative = matched), or `None` if unmeasured.
    pub fn return_loss_db(&self, freq_mhz: Micro) -> (loss: Option<Ratio>)
        requires
            table_within_limit(self.s11_table@),
            within_limit(freq_mhz),
        ensures
            loss is None <==> self.s11_table.len() == 0,
            loss is Some ==> loss->0 == interpolated(self.s11_table@, freq_mhz as int),
    {
        if self.s11_table.len() == 0 {
            None
        } else {
            Some(interp_table(&self.s11_table, freq_mhz))
        }
    }

    /// Noise figure in dB at a frequency: never better than the insertion loss of a passive
    /// part, so the worse of the two.
    pub fn noise_figure_db_at(&self, freq_mhz: Micro) -> (nf_db: Ratio)
        requires
            s21_within_limit(self.s21_table@),
            within_limit(freq_mhz),
        ensures
            nf_db.wf(),
            nf_db == ({
                let gain = interpolated(gain_table(self.s21_table@), freq_mhz as int);
                if self.noise_figure_db * gain.under >= -gain.over {
                    whole(self.noise_figure_db as int)
                } else {
                    Ratio { over: (-gain.over) as i128, under: gain.under }
                }
            }),
            nf_db == self.noise_at(freq_mhz as int),
    {
        let gain: Ratio = self.s21_gain_at(freq_mhz);
        proof {
            gain_stays_within_limit(self.s21_table@, freq_mhz as int);
            let (nf, under) = (self.noise_figure_db as int, gain.under as int);
            assert(-0x8000_0000_0000_0000 * (2 * MICRO_LIMIT) <= nf * under
                <= 0x8000_0000_0000_0000 * (2 * MICRO_LIMIT)) by (nonlinear_arith)
                requires
                    -0x8000_0000_0000_0000 <= nf <= 0x8000_0000_0000_0000,
                    0 < under <= 2 * MICRO_LIMIT,
            ;
        }
        if self.noise_figure_db as i128 * gain.under >= -gain.over {
            Ratio { over: self.noise_figure_db as i128, under: 1 }
        } else {
            Ratio { over: -gain.over, under: gain.under }
        }
    }

    /// The smallest positive frequency step in the first `n` points, if there is one.
    pub open spec fn min_step(table: Seq<(Micro, Micro, Micro)>, n: int) -> Option<int>
        decreases n,
    {
        if n < 2 {
            None
        } else {
            let before = Self::min_step(table, n - 1);
            let step = table[n - 1].0 - table[n - 2].0;
            if step <= 0 {
                before
            } else if before is Some && before->0 <= step {
                before
            } else {
                Some(step)
            }
        }
    }

    /// How long the impulse response can last, in nanoseconds: data with a spacing of `df` can
    /// only describe structure lasting up to `1 / df`.
    pub fn settling_ns(&self) -> (settling: Ratio)
        requires
            s21_within_limit(self.s21_table@),
        ensures
            settling.wf(),
            settling == match Self::min_step(self.s21_table@, self.s21_table.len() as int) {
                Some(step) => Ratio { over: 1_000_000_000_000_000, under: step as i128 },
                None => whole(0),
            },
            settling == self.ringing(),
    {
        let mut best: Option<Micro> = None;
        let mut n: usize = 1;
        while n < self.s21_table.len()
            invariant
                s21_within_limit(self.s21_table@),
                1 <= n,
                n <= self.s21_table.len() || n == 1,
                best is Some <==> Self::min_step(self.s21_table@, n as int) is Some,
                best is Some ==> best->0 == Self::min_step(self.s21_table@, n as int)->0,
                best is Some ==> best->0 > 0,
            decreases self.s21_table.len() - n,
        {
            assert(within_limit(self.s21_table@[n as int].0));
            assert(within_limit(self.s21_table@[n - 1].0));
            let step: Micro = self.s21_table[n].0 - self.s21_table[n - 1].0;
            if step > 0 {
                best = match best {
                    Some(b) => if b <= step {
                        Some(b)
                    } else {
                        Some(step)
                    },
                    None => Some(step),
                };
            }
            n += 1;
        }
        match best {
            Some(step) => Ratio { over: 1_000_000_000_000_000, under: step as i128 },
            None => Ratio { over: 0, under: 1 },
        }
    }
}

proof fn gain_stays_within_limit(table: Seq<(Micro, Micro, Micro)>, f: int)
    requires
        s21_within_limit(table),
    ensures
        ({
            let gain = interpolated(gain_table(table), f);
            &&& 0 < gain.under <= 2 * MICRO_LIMIT
            &&& -MICRO_LIMIT * (2 * MICRO_LIMIT) <= gain.over <= MICRO_LIMIT * (2 * MICRO_LIMIT)
        }),
{
    let gains = gain_table(table);
    if gains.len() > 0 {
        assert forall|i: int| 0 <= i < gains.len() implies within_limit(#[trigger] gains[i].0)
            && within_limit(gains[i].1) by {
            assert(within_limit(table[i].0));
        }
        assert forall|i: int| 0 <= i < gains.len() implies -MICRO_LIMIT <= (#[trigger] gains[i]).1
            <= MICRO_LIMIT by {
            assert(within_limit(table[i].0));
        }
        crate::components::interpolation_stays_in_range(
            gains,
            f,
            -MICRO_LIMIT as int,
            MICRO_LIMIT as int,
        );
    }
}

// ---------------------------------------------------------------------------
// The file grammar
// ---------------------------------------------------------------------------

/// Unit of the frequency column.
#[derive(Clone, Copy, Debug, PartialEq, Eq, Structural)]
pub enum FreqUnit {
    Hz,
    KHz,
    MHz,
    GHz,
}

/// How a complex parameter is written.
#[derive(Clone, Copy, Debug, PartialEq, Eq, Structural)]
pub enum ParamFormat {
    /// Decibels and angle.
    Db,
    /// Magnitude and angle.
    Ma,
    /// Real and imaginary part.
    Ri,
}

/// What the option lines seen so far have set.
#[derive(Clone, Copy, Debug, PartialEq, Eq, Structural)]
pub struct Options {
    pub unit: FreqUnit,
    pub format: ParamFormat,
}

/// The options after one more token of an option line. Tokens are read without regard to case,
/// and unknown ones change nothing.
pub open spec fn after_token(options: Options, token: Seq<char>) -> Options {
    let upper = uppercase(token);
    if upper == "HZ"@ {
        Options { unit: FreqUnit::Hz, ..options }
    } else if upper == "KHZ"@ {
        Options { unit: FreqUnit::KHz, ..options }
    } else if upper == "MHZ"@ {
        Options { unit: FreqUnit::MHz, ..options }
    } else if upper == "GHZ"@ {
        Options { unit: FreqUnit::GHz, ..options }
    } else if upper == "DB"@ {
        Options { format: ParamFormat::Db, ..options }
    } else if upper == "MA"@ {
        Options { format: ParamFormat::Ma, ..options }
    } else if upper == "RI"@ {
        Options { format: ParamFormat::Ri, ..options }
    } else {
        options
    }
}

/// The options after the first `n` tokens of an option line.
pub open spec fn after_tokens(options: Options, tokens: Seq<Seq<char>>, n: int) -> Options
    decreases n,
{
    if n <= 0 {
        options
    } else {
        after_token(after_tokens(options, tokens, n - 1), tokens[n - 1])
    }
}

/// Reads one token of an option line.
pub fn read_option(options: Options, token: &Vec<char>) -> (after: Options)
    ensures
        after == after_token(options, token@),
{
    let upper: String = to_uppercase(&string_of(token));
    if upper.eq(&"HZ".to_owned()) {
        Options { unit: FreqUnit::Hz, ..options }
    } else if upper.eq(&"KHZ".to_owned()) {
        Options { unit: FreqUnit::KHz, ..options }
    } else if upper.eq(&"MHZ".to_owned()) {
        Options { unit: FreqUnit::MHz, ..options }
    } else if upper.eq(&"GHZ".to_owned()) {
        Options { unit: FreqUnit::GHz, ..options }
    } else if upper.eq(&"DB".to_owned()) {
        Options { format: ParamFormat::Db, ..options }
    } else if upper.eq(&"MA".to_owned()) {
        Options { format: ParamFormat::Ma, ..options }
    } else if upper.eq(&"RI".to_owned()) {
        Options { format: ParamFormat::Ri, ..options }
    } else {
        options
    }
}

/// One row of numbers, still as text.
#[derive(Clone, Debug)]
pub enum TouchstoneRow {
    /// Frequency and four complex parameters, under the options then in force.
    Data { options: Options, cells: Vec<Vec<char>> },
    /// The noise figure column of a noise-parameter row.
    Noise { figure: Vec<char> },
}

/// A row as the texts it holds.
pub enum RowView {
    Data { options: Options, cells: Seq<Seq<char>> },
    Noise { figure: Seq<char> },
}

impl View for TouchstoneRow {
    type V = RowView;

    open spec fn view(&self) -> RowView {
        match self {
            TouchstoneRow::Data { options, cells } => RowView::Data {
                options: *options,
                cells: views(cells@),
            },
            TouchstoneRow::Noise { figure } => RowView::Noise { figure: figure@ },
        }
    }
}

/// The rows as the texts they hold.
pub open spec fn touchstone_views(rows: Seq<TouchstoneRow>) -> Seq<RowView> {
    rows.map_values(|row: TouchstoneRow| row@)
}

/// What has been read of a file: the options in force, the rows so far, and whether any of
/// them is a row of data.
pub struct FileState {
    pub options: Options,
    pub rows: Seq<RowView>,
    pub has_data: bool,
}

/// A line without its trailing comment and surrounding white space.
pub open spec fn line_body(line: Seq<char>) -> Seq<char> {
    trimmed(pieces(line, '!')[0])
}

/// The state after one more line.
///
/// A body that starts with `#` sets options. Of the others, nine words or more are a row of
/// data; exactly five are noise parameters once data has been seen; anything else is ignored.
pub open spec fn after_line(state: FileState, line: Seq<char>) -> FileState {
    let body = line_body(line);
    let parts = words_of(body);
    if body.len() == 0 {
        state
    } else if body[0] == '#' {
        let tokens = words_of(body.drop_first());
        FileState { options: after_tokens(state.options, tokens, tokens.len() as int), ..state }
    } else if parts.len() == 5 && state.has_data {
        FileState { rows: state.rows.push(RowView::Noise { figure: parts[1] }), ..state }
    } else if parts.len() < 9 {
        state
    } else {
        FileState {
            rows: state.rows.push(
                RowView::Data { options: state.options, cells: parts.take(9) },
            ),
            has_data: true,
            ..state
        }
    }
}

/// The state after the first `n` lines. Until an option line says otherwise, frequencies are
/// in megahertz and parameters in magnitude and angle.
pub open spec fn file_state(lines: Seq<Seq<char>>, n: int) -> FileState
    decreases n,
{
    if n <= 0 {
        FileState {
            options: Options { unit: FreqUnit::MHz, format: ParamFormat::Ma },
            rows: Seq::empty(),
            has_data: false,
        }
    } else {
        after_line(file_state(lines, n - 1), lines[n - 1])
    }
}

/// The rows of a file.
pub open spec fn file_rows(text: Seq<char>) -> Seq<RowView> {
    let lines = pieces(text, '\n');
    file_state(lines, lines.len() as int).rows
}

fn read_option_line(options: Options, body: &Vec<char>) -> (after: Options)
    requires
        body.len() > 0,
    ensures
        after == after_tokens(
            options,
            words_of(body@.drop_first()),
            words_of(body@.drop_first()).len() as int,
        ),
{
    let mut rest: Vec<char> = Vec::new();
    let mut i: usize = 1;
    while i < body.len()
        invariant
            1 <= i <= body.len(),
            rest@ == body@.subrange(1, i as int),
        decreases body.len() - i,
    {
        rest.push(body[i]);
        assert(body@.subrange(1, i + 1) =~= body@.subrange(1, i as int).push(body@[i as int]));
        i += 1;
    }
    assert(rest@ =~= body@.drop_first());
    let tokens: Vec<Vec<char>> = words(&rest);
    let ghost specs = words_of(body@.drop_first());
    assert(views(tokens@) == specs);
    let mut after: Options = options;
    let mut k: usize = 0;
    while k < tokens.len()
        invariant
            views(tokens@) == specs,
            k <= tokens.len(),
            after == after_tokens(options, specs, k as int),
        decreases tokens.len() - k,
    {
        assert(specs[k as int] == tokens[k as int]@);
        after = read_option(after, &tokens[k]);
        k += 1;
    }
    after
}

/// Splits the text of a Touchstone `.s2p` file into its rows.
pub fn scan_touchstone(text: &str) -> (rows: Vec<TouchstoneRow>)
    ensures
        touchstone_views(rows@) == file_rows(text@),
{
    let lines: Vec<Vec<char>> = split_on(&chars_of(text), '\n');
    let ghost specs = pieces(text@, '\n');
    let mut options: Options = Options { unit: FreqUnit::MHz, format: ParamFormat::Ma };
    let mut rows: Vec<TouchstoneRow> = Vec::new();
    let mut has_data: bool = false;
    let mut n: usize = 0;
    assert(touchstone_views(rows@) =~= Seq::empty());
    while n < lines.len()
        invariant
            views(lines@) == specs,
            n <= lines.len(),
            file_state(specs, n as int) == (FileState {
                options,
                rows: touchstone_views(rows@),
                has_data,
            }),
        decreases lines.len() - n,
    {
        let ghost before = file_state(specs, n as int);
        assert(specs[n as int] == lines[n as int]@);
        let parts: Vec<Vec<char>> = split_on(&lines[n], '!');
        proof {
            crate::text::pieces_nonempty(specs[n as int], '!');
        }
        assert(views(parts@)[0] == parts[0]@);
        let body: Vec<char> = trim(&parts[0]);
        if body.len() > 0 {
            if body[0] == '#' {
                options = read_option_line(options, &body);
            } else {
                let cells: Vec<Vec<char>> = words(&body);
                let ghost parts = words_of(body@);
                assert(views(cells@) == parts);
                assert(cells.len() == parts.len());
                let ghost old_rows = touchstone_views(rows@);
                if cells.len() == 5 && has_data {
                    assert(parts[1] == cells[1]@);
                    let row = TouchstoneRow::Noise { figure: clone_chars(&cells[1]) };
                    rows.push(row);
                    assert(touchstone_views(rows@) =~= old_rows.push(row@));
                } else if cells.len() >= 9 {
                    let first: Vec<Vec<char>> = first_nine(&cells);
                    let row = TouchstoneRow::Data { options, cells: first };
                    rows.push(row);
                    assert(touchstone_views(rows@) =~= old_rows.push(row@));
                    has_data = true;
                }
            }
        }
        n += 1;
    }
    rows
}

fn clone_chars(chars: &Vec<char>) -> (copy: Vec<char>)
    ensures
        copy@ == chars@,
{
    let mut copy: Vec<char> = Vec::new();
    let mut i: usize = 0;
    while i < chars.len()
        invariant
            i <= chars.len(),
            copy@ == chars@.take(i as int),
        decreases chars.len() - i,
    {
        copy.push(chars[i]);
        assert(copy@ =~= chars@.take(i + 1));
        i += 1;
    }
    assert(copy@ =~= chars@);
    copy
}

fn first_nine(cells: &Vec<Vec<char>>) -> (first: Vec<Vec<char>>)
    requires
        cells.len() >= 9,
    ensures
        views(first@) == views(cells@).take(9),
{
    let mut first: Vec<Vec<char>> = Vec::new();
    let mut i: usize = 0;
    while i < 9
        invariant
            i <= 9 <= cells.len(),
            views(first@) =~= views(cells@).take(i as int),
        decreases 9 - i,
    {
        let ghost before = views(first@);
        let cell: Vec<char> = clone_chars(&cells[i]);
        first.push(cell);
        assert(views(first@) =~= before.push(cell@));
        assert(views(cells@).take(i + 1) =~= views(cells@).take(i as int).push(cells@[i as int]@));
        i += 1;
    }
    first
}

// ---------------------------------------------------------------------------
// Assembling the model
// ---------------------------------------------------------------------------

/// One measured point, its parameters converted to decibels and degrees.
#[derive(Clone, Copy, Debug, PartialEq, Eq, Structural)]
pub struct DataPoint {
    pub freq_mhz: Micro,
    pub s11_db: Micro,
    pub s21_db: Micro,
    pub s21_deg: Micro,
    pub s22_db: Micro,
}

/// The numbers of one row.
#[derive(Clone, Debug)]
pub enum RowValue {
    Data(DataPoint),
    /// The noise figure of a noise row, if it is a number.
    Noise(Option<Micro>),
    /// A cell that had to be a number is not one, for this reason.
    Invalid(String),
}

/// Where a point of frequency `freq` belongs behind the points not above it, counted from the
/// end.
pub open spec fn insert_place(points: Seq<DataPoint>, freq: Micro) -> int
    decreases points.len(),
{
    if points.len() == 0 {
        0
    } else if points.last().freq_mhz <= freq {
        points.len() as int
    } else {
        insert_place(points.drop_last(), freq)
    }
}

/// The points in order of frequency; points of one frequency keep their order.
pub open spec fn by_frequency(points: Seq<DataPoint>) -> Seq<DataPoint>
    decreases points.len(),
{
    if points.len() == 0 {
        Seq::empty()
    } else {
        let before = by_frequency(points.drop_last());
        before.insert(insert_place(before, points.last().freq_mhz), points.last())
    }
}

/// The points rise in frequency.
pub open spec fn rising(points: Seq<DataPoint>) -> bool {
    forall|i: int, j: int|
        0 <= i <= j < points.len() ==> (#[trigger] points[i]).freq_mhz <= (#[trigger] points[j]).freq_mhz
}

proof fn insert_place_bounds(points: Seq<DataPoint>, freq: Micro)
    ensures
        0 <= insert_place(points, freq) <= points.len(),
        insert_place(points, freq) > 0 ==> points[insert_place(points, freq) - 1].freq_mhz <= freq,
        forall|i: int|
            insert_place(points, freq) <= i < points.len() ==> (#[trigger] points[i]).freq_mhz > freq,
    decreases points.len(),
{
    if points.len() > 0 && points.last().freq_mhz > freq {
        insert_place_bounds(points.drop_last(), freq);
        let p = insert_place(points, freq);
        assert forall|i: int| p <= i < points.len() implies (#[trigger] points[i]).freq_mhz
            > freq by {
            if i < points.len() - 1 {
                assert(points.drop_last()[i] == points[i]);
            }
        }
    }
}

/// The sorted points are the same points, and rise in frequency.
pub proof fn by_frequency_sorts(points: Seq<DataPoint>)
    ensures
        rising(by_frequency(points)),
        by_frequency(points).to_multiset() == points.to_multiset(),
        by_frequency(points).len() == points.len(),
    decreases points.len(),
{
    broadcast use group_to_multiset_ensures;

    if points.len() == 0 {
        assert(by_frequency(points) =~= points);
    } else {
        let before = by_frequency(points.drop_last());
        let p = points.last();
        by_frequency_sorts(points.drop_last());
        insert_place_bounds(before, p.freq_mhz);
        let at = insert_place(before, p.freq_mhz);
        let after = before.insert(at, p);
        assert forall|i: int, j: int| 0 <= i <= j < after.len() implies (
        #[trigger] after[i]).freq_mhz <= (#[trigger] after[j]).freq_mhz by {
            let k = if i < at {
                i
            } else {
                i - 1
            };
            let l = if j < at {
                j
            } else {
                j - 1
            };
            if i < at {
                assert(after[i] == before[i]);
                assert(before[i].freq_mhz <= before[at - 1].freq_mhz);
            }
            if j > at {
                assert(after[j] == before[j - 1]);
                assert(before[j - 1].freq_mhz > p.freq_mhz);
            }
            if i != at && j != at {
                assert(after[i] == before[k] && after[j] == before[l]);
            }
        }
        assert(points =~= points.drop_last().push(p));
        assert(after.remove(at) =~= before);
        assert(after[at] == p);
        assert(after.to_multiset().count(p) > 0);
        assert(after.to_multiset() =~= before.to_multiset().insert(p));
    }
}

/// The data points among the first `n` rows.
pub open spec fn data_points(values: Seq<RowValue>, n: int) -> Seq<DataPoint>
    decreases n,
{
    if n <= 0 {
        Seq::empty()
    } else {
        match values[n - 1] {
            RowValue::Data(point) => data_points(values, n - 1).push(point),
            _ => data_points(values, n - 1),
        }
    }
}

/// The smallest noise figure among the first `n` rows, if any was measured.
pub open spec fn measured_noise(values: Seq<RowValue>, n: int) -> Option<Micro>
    decreases n,
{
    if n <= 0 {
        None
    } else {
        let before = measured_noise(values, n - 1);
        match values[n - 1] {
            RowValue::Noise(Some(figure)) => match before {
                Some(best) => if figure < best {
                    Some(figure)
                } else {
                    Some(best)
                },
                None => Some(figure),
            },
            _ => before,
        }
    }
}

/// The greatest loss among the points, at least zero: the noise figure of a passive part.
pub open spec fn greatest_loss(points: Seq<DataPoint>) -> int
    decreases points.len(),
{
    if points.len() == 0 {
        0
    } else {
        let before = greatest_loss(points.drop_last());
        if -points.last().s21_db > before {
            -points.last().s21_db
        } else {
            before
        }
    }
}

/// Why a file holds no usable model.
#[derive(Clone, Debug)]
pub enum S2pError {
    /// A cell is not a number.
    Invalid(String),
    /// There is no row of data.
    NoData,
}

impl S2pError {
    /// The message shown to the user.
    pub fn message(&self) -> (text: String)
        ensures
            text@ == match self {
                S2pError::Invalid(reason) => reason@,
                S2pError::NoData => "No valid S2P data points found"@,
            },
    {
        match self {
            S2pError::Invalid(reason) => reason.clone(),
            S2pError::NoData => "No valid S2P data points found".to_owned(),
        }
    }
}

/// No row up to the `n`-th is invalid.
pub open spec fn valid_rows(values: Seq<RowValue>, n: int) -> bool {
    forall|k: int| 0 <= k < n ==> !((#[trigger] values[k]) is Invalid)
}

/// The model that rows of numbers describe.
pub open spec fn is_model_of(name: Seq<char>, values: Seq<RowValue>, model: S2pModel) -> bool {
    let points = by_frequency(data_points(values, values.len() as int));
    &&& model.name@ == name
    &&& model.s21_table@ == points.map_values(
        |p: DataPoint| (p.freq_mhz, p.s21_db, p.s21_deg),
    )
    &&& model.s11_table@ == points.map_values(|p: DataPoint| (p.freq_mhz, p.s11_db))
    &&& model.s22_table@ == points.map_values(|p: DataPoint| (p.freq_mhz, p.s22_db))
    &&& model.noise_figure_db == match measured_noise(values, values.len() as int) {
        Some(figure) => figure as int,
        None => greatest_loss(points),
    }
    &&& model.oip3_dbm == 30_000_000
    &&& model.use_measured_phase
}

fn insert_point(points: &mut Vec<DataPoint>, point: DataPoint)
    ensures
        final(points)@ == old(points)@.insert(
            insert_place(old(points)@, point.freq_mhz),
            point,
        ),
{
    let ghost all = points@;
    let mut at: usize = points.len();
    assert(all.take(at as int) =~= all);
    while at > 0 && points[at - 1].freq_mhz > point.freq_mhz
        invariant
            at <= points.len(),
            points@ == all,
            insert_place(all.take(at as int), point.freq_mhz) == insert_place(all, point.freq_mhz),
        decreases at,
    {
        assert(all.take(at as int).drop_last() =~= all.take(at - 1));
        at -= 1;
    }
    points.insert(at, point);
}

/// Builds the model from the numbers of a file's rows.
///
/// The first row with a cell that is not a number refuses the file, and so does the want of any
/// data. Points are put in order of frequency. Without a measured noise figure the greatest
/// loss stands in for it: right for a passive part, a lower bound for anything else.
pub fn assemble_s2p(name: &str, values: &Vec<RowValue>) -> (model: Result<S2pModel, S2pError>)
    requires
        forall|k: int| 0 <= k < values.len() ==> ((#[trigger] values[k]) matches RowValue::Data(p) ==> p.s21_db > i64::MIN),
    ensures
        model is Ok <==> valid_rows(values@, values.len() as int) && data_points(
            values@,
            values.len() as int,
        ).len() > 0,
        model is Ok ==> is_model_of(name@, values@, model->Ok_0),
        model is Err ==> match model->Err_0 {
            S2pError::Invalid(reason) => exists|k: int|
                {
                    &&& 0 <= k < values.len()
                    &&& valid_rows(values@, k)
                    &&& (#[trigger] values[k]) matches RowValue::Invalid(said)
                        && said@ == reason@
                },
            S2pError::NoData => valid_rows(values@, values.len() as int) && data_points(
                values@,
                values.len() as int,
            ).len() == 0,
        },
{
    let mut points: Vec<DataPoint> = Vec::new();
    let mut noise: Option<Micro> = None;
    let mut k: usize = 0;
    assert(points@ =~= by_frequency(data_points(values@, 0)));
    while k < values.len()
        invariant
            k <= values.len(),
            forall|j: int| 0 <= j < values.len() ==> ((#[trigger] values[j]) matches RowValue::Data(p) ==> p.s21_db > i64::MIN),
            valid_rows(values@, k as int),
            points@ == by_frequency(data_points(values@, k as int)),
            noise == measured_noise(values@, k as int),
            forall|j: int| 0 <= j < points.len() ==> (#[trigger] points[j]).s21_db > i64::MIN,
        decreases values.len() - k,
    {
        match &values[k] {
            RowValue::Data(point) => {
                proof {
                    let before = data_points(values@, k as int);
                    let after = data_points(values@, k + 1);
                    assert(after =~= before.push(*point));
                    assert(after.drop_last() =~= before);
                    insert_place_bounds(points@, point.freq_mhz);
                }
                let ghost old_points = points@;
                insert_point(&mut points, *point);
                assert forall|j: int| 0 <= j < points.len() implies (#[trigger] points[j]).s21_db
                    > i64::MIN by {
                    let at = insert_place(old_points, point.freq_mhz);
                    if j < at {
                        assert(points@[j] == old_points[j]);
                    } else if j > at {
                        assert(points@[j] == old_points[j - 1]);
                    } else {
                        assert(values[k as int] matches RowValue::Data(p) ==> p.s21_db > i64::MIN);
                    }
                }
            },
            RowValue::Noise(figure) => {
                if let Some(figure) = figure {
                    noise = match noise {
                        Some(best) => if *figure < best {
                            Some(*figure)
                        } else {
                            Some(best)
                        },
                        None => Some(*figure),
                    };
                }
            },
            RowValue::Invalid(reason) => {
                return Err(S2pError::Invalid(reason.clone()));
            },
        }
        k += 1;
    }
    proof {
        by_frequency_sorts(data_points(values@, values.len() as int));
    }
    if points.len() == 0 {
        return Err(S2pError::NoData);
    }
    let mut s21_table: Vec<(Micro, Micro, Micro)> = Vec::new();
    let mut s11_table: Vec<(Micro, Micro)> = Vec::new();
    let mut s22_table: Vec<(Micro, Micro)> = Vec::new();
    let mut loss: Micro = 0;
    let mut i: usize = 0;
    assert(points@.take(0) =~= Seq::empty());
    while i < points.len()
        invariant
            i <= points.len(),
            forall|j: int| 0 <= j < points.len() ==> (#[trigger] points[j]).s21_db > i64::MIN,
            s21_table@ =~= points@.take(i as int).map_values(
                |p: DataPoint| (p.freq_mhz, p.s21_db, p.s21_deg),
            ),
            s11_table@ =~= points@.take(i as int).map_values(
                |p: DataPoint| (p.freq_mhz, p.s11_db),
            ),
            s22_table@ =~= points@.take(i as int).map_values(
                |p: DataPoint| (p.freq_mhz, p.s22_db),
            ),
            loss == greatest_loss(points@.take(i as int)),
        decreases points.len() - i,
    {
        let p: DataPoint = points[i];
        assert(points@.take(i + 1).drop_last() =~= points@.take(i as int));
        s21_table.push((p.freq_mhz, p.s21_db, p.s21_deg));
        s11_table.push((p.freq_mhz, p.s11_db));
        s22_table.push((p.freq_mhz, p.s22_db));
        if -p.s21_db > loss {
            loss = -p.s21_db;
        }
        i += 1;
    }
    assert(points@.take(i as int) =~= points@);
    Ok(
        S2pModel {
            name: name.to_owned(),
            s21_table,
            s11_table,
            s22_table,
            noise_figure_db: match noise {
                Some(figure) => figure,
                None => loss,
            },
            oip3_dbm: 30_000_000,
            use_measured_phase: true,
        },
    )
}

/// Parses a Touchstone `.s2p` file into an [`S2pModel`]. `read` turns the text of one row into
/// numbers: it parses the cells and converts them to megahertz, decibels and degrees under the
/// row's options.
pub fn parse_touchstone_s2p<F: Fn(&TouchstoneRow) -> RowValue>(
    name: &str,
    content: &str,
    read: F,
) -> (model: Result<S2pModel, S2pError>)
    requires
        forall|row: &TouchstoneRow| #[trigger] call_requires(read, (row,)),
        forall|row: &TouchstoneRow, value: RowValue| #[trigger]
            call_ensures(read, (row,), value) ==> (value matches RowValue::Data(p) ==> p.s21_db
                > i64::MIN),
    ensures
        exists|rows: Seq<TouchstoneRow>, values: Seq<RowValue>|
            {
                &&& touchstone_views(rows) == file_rows(content@)
                &&& #[trigger] are_readings(read, rows, values)
                &&& model is Ok <==> valid_rows(values, values.len() as int) && data_points(
                    values,
                    values.len() as int,
                ).len() > 0
                &&& model is Ok ==> is_model_of(name@, values, model->Ok_0)
                &&& model is Err ==> match model->Err_0 {
                    S2pError::Invalid(reason) => exists|k: int|
                        {
                            &&& 0 <= k < values.len()
                            &&& valid_rows(values, k)
                            &&& (#[trigger] values[k]) matches RowValue::Invalid(said) && said@
                                == reason@
                        },
                    S2pError::NoData => valid_rows(values, values.len() as int)
                        && data_points(values, values.len() as int).len() == 0,
                }
            },
{
    let rows: Vec<TouchstoneRow> = scan_touchstone(content);
    let mut values: Vec<RowValue> = Vec::new();
    let mut k: usize = 0;
    while k < rows.len()
        invariant
            forall|row: &TouchstoneRow| #[trigger] call_requires(read, (row,)),
            forall|row: &TouchstoneRow, value: RowValue| #[trigger]
                call_ensures(read, (row,), value) ==> (value matches RowValue::Data(p) ==> p.s21_db
                    > i64::MIN),
            k <= rows.len(),
            values.len() == k,
            forall|j: int| 0 <= j < k ==> call_ensures(read, (&rows[j],), #[trigger] values[j]),
        decreases rows.len() - k,
    {
        let value: RowValue = read(&rows[k]);
        values.push(value);
        k += 1;
    }
    assert(are_readings(read, rows@, values@));
    assert forall|j: int| 0 <= j < values.len() implies ((
    #[trigger] values[j]) matches RowValue::Data(p) ==> p.s21_db > i64::MIN) by {
        assert(call_ensures(read, (&rows[j],), values[j]));
    }
    assemble_s2p(name, &values)
}

/// The values are what `read` made of the rows.
pub open spec fn are_readings<F: Fn(&TouchstoneRow) -> RowValue>(
    read: F,
    rows: Seq<TouchstoneRow>,
    values: Seq<RowValue>,
) -> bool {
    &&& values.len() == rows.len()
    &&& forall|j: int|
        0 <= j < rows.len() ==> call_ensures(read, (&rows[j],), #[trigger] values[j])
}

// ---------------------------------------------------------------------------
// What an imported file means
// ---------------------------------------------------------------------------

proof fn noise_is_the_least(values: Seq<RowValue>, n: int, k: int)
    requires
        0 <= n <= values.len(),
    ensures
        measured_noise(values, n) matches Some(best) ==> exists|j: int|
            0 <= j < n && (#[trigger] values[j]) == RowValue::Noise(Some(best)),
        0 <= k < n ==> (values[k] matches RowValue::Noise(Some(figure)) ==> (measured_noise(
            values,
            n,
        ) matches Some(best) && best <= figure)),
    decreases n,
{
    if n > 0 {
        noise_is_the_least(values, n - 1, k);
        let last = values[n - 1];
        if let Some(best) = measured_noise(values, n) {
            if measured_noise(values, n - 1) == Some(best) {
                let j = choose|j: int|
                    0 <= j < n - 1 && (#[trigger] values[j]) == RowValue::Noise(Some(best));
                assert(values[j] == RowValue::Noise(Some(best)));
            } else {
                assert(values[n - 1] == RowValue::Noise(Some(best)));
            }
        }
    }
}

/// The noise figure of a model is the smallest that was measured, wherever in the file it stands:
/// one of the rows holds it, and no row holds a smaller one.
pub proof fn noise_figure_is_the_smallest_measured(
    name: Seq<char>,
    values: Seq<RowValue>,
    model: S2pModel,
    k: int,
)
    requires
        is_model_of(name, values, model),
        0 <= k < values.len(),
        values[k] matches RowValue::Noise(Some(_)),
    ensures
        model.noise_figure_db <= values[k]->Noise_0->0,
        exists|j: int|
            0 <= j < values.len() && (#[trigger] values[j]) == RowValue::Noise(
                Some(model.noise_figure_db),
            ),
{
    noise_is_the_least(values, values.len() as int, k);
}

proof fn loss_is_the_greatest(points: Seq<DataPoint>, k: int)
    ensures
        greatest_loss(points) >= 0,
        0 <= k < points.len() ==> -points[k].s21_db <= greatest_loss(points),
        greatest_loss(points) > 0 ==> exists|j: int|
            0 <= j < points.len() && -(#[trigger] points[j]).s21_db == greatest_loss(points),
    decreases points.len(),
{
    if points.len() > 0 {
        let rest = points.drop_last();
        loss_is_the_greatest(rest, k);
        if 0 <= k < rest.len() {
            assert(rest[k] == points[k]);
        }
        if greatest_loss(points) > 0 {
            if greatest_loss(points) == greatest_loss(rest) {
                let j = choose|j: int|
                    0 <= j < rest.len() && -(#[trigger] rest[j]).s21_db == greatest_loss(rest);
                assert(points[j] == rest[j]);
            } else {
                assert(-points[points.len() - 1].s21_db == greatest_loss(points));
            }
        }
    }
}

/// Without a measured noise figure the greatest loss of the part stands in for it: it is at least
/// the loss at every point, it is the loss at one of them, and it is never below zero.
pub proof fn unmeasured_noise_is_the_greatest_loss(
    name: Seq<char>,
    values: Seq<RowValue>,
    model: S2pModel,
    k: int,
)
    requires
        is_model_of(name, values, model),
        forall|j: int|
            0 <= j < values.len() ==> !((#[trigger] values[j]) matches RowValue::Noise(Some(_))),
        forall|j: int|
            0 <= j < model.s21_table.len() ==> (#[trigger] model.s21_table[j]).1 > i64::MIN,
        0 <= k < model.s21_table.len(),
    ensures
        model.noise_figure_db >= 0,
        model.noise_figure_db >= -model.s21_table[k].1,
        model.noise_figure_db > 0 ==> exists|j: int|
            0 <= j < model.s21_table.len() && -(#[trigger] model.s21_table[j]).1
                == model.noise_figure_db,
{
    let n = values.len() as int;
    let points = by_frequency(data_points(values, n));
    noise_is_the_least(values, n, 0);
    if let Some(best) = measured_noise(values, n) {
        let j = choose|j: int|
            0 <= j < n && (#[trigger] values[j]) == RowValue::Noise(Some(best));
        assert(values[j] matches RowValue::Noise(Some(_)));
    }
    loss_is_the_greatest(points, k);
    assert(model.s21_table[k].1 == points[k].s21_db);
    if greatest_loss(points) > 0 {
        let j = choose|j: int|
            0 <= j < points.len() && -(#[trigger] points[j]).s21_db == greatest_loss(points);
        assert(model.s21_table[j].1 == points[j].s21_db);
    }
}

/// The data rows of two stretches of a file, one after the other, are those of the one and then
/// those of the other; a row of data alone is its point, and any other row alone is none.
pub proof fn data_points_of_stretches(left: Seq<RowValue>, right: Seq<RowValue>)
    ensures
        data_points(left + right, (left + right).len() as int) == data_points(
            left,
            left.len() as int,
        ) + data_points(right, right.len() as int),
        right.len() == 1 && right[0] is Data ==> data_points(right, 1) == seq![right[0]->Data_0],
        right.len() == 1 && !(right[0] is Data) ==> data_points(right, 1).len() == 0,
    decreases right.len(),
{
    let whole = left + right;
    if right.len() == 0 {
        assert(whole =~= left);
        assert(data_points(left, left.len() as int) + data_points(right, 0) =~= data_points(
            left,
            left.len() as int,
        ));
    } else {
        data_points_of_stretches(left, right.drop_last());
        let n = whole.len() as int;
        points_depend_on_prefix(whole, left + right.drop_last(), n - 1);
        points_depend_on_prefix(right, right.drop_last(), right.len() - 1);
        assert(whole[n - 1] == right.last());
        let (a, b) = (
            data_points(left, left.len() as int),
            data_points(right.drop_last(), right.len() - 1),
        );
        assert((left + right.drop_last()).len() == n - 1);
        match right.last() {
            RowValue::Data(point) => {
                assert((a + b).push(point) =~= a + b.push(point));
            },
            _ => {},
        }
        if right.len() == 1 {
            assert(data_points(right, 0) =~= Seq::empty());
            if right[0] is Data {
                assert(data_points(right, 1) =~= seq![right[0]->Data_0]);
            }
        }
    }
}

proof fn points_depend_on_prefix(a: Seq<RowValue>, b: Seq<RowValue>, n: int)
    requires
        n <= a.len(),
        n <= b.len(),
        forall|i: int| 0 <= i < n ==> a[i] == b[i],
    ensures
        data_points(a, n) == data_points(b, n),
    decreases n,
{
    if n > 0 {
        points_depend_on_prefix(a, b, n - 1);
    }
}

/// One more point goes behind all that are not above it in frequency and before all that are, so
/// points of one frequency keep their order; the points there were stay as they stand.
pub proof fn one_more_point_goes_behind_its_equals(points: Seq<DataPoint>, point: DataPoint) -> (at:
    int)
    ensures
        0 <= at <= points.len(),
        by_frequency(points.push(point)) == by_frequency(points).insert(at, point),
        forall|i: int|
            0 <= i < at ==> (#[trigger] by_frequency(points)[i]).freq_mhz <= point.freq_mhz,
        forall|i: int|
            at <= i < points.len() ==> (#[trigger] by_frequency(points)[i]).freq_mhz
                > point.freq_mhz,
{
    let before = by_frequency(points);
    let at = insert_place(before, point.freq_mhz);
    assert(points.push(point).drop_last() =~= points);
    by_frequency_sorts(points);
    insert_place_bounds(before, point.freq_mhz);
    assert forall|i: int| 0 <= i < at implies (#[trigger] before[i]).freq_mhz <= point.freq_mhz by {
        assert(before[i].freq_mhz <= before[at - 1].freq_mhz);
    }
    at
}

/// The tables of a model are of one length and over the same frequencies, which rise; each entry
/// comes from a data row of the file, and there are as many as data rows.
pub proof fn tables_hold_the_data_rows(
    name: Seq<char>,
    values: Seq<RowValue>,
    model: S2pModel,
    i: int,
    j: int,
)
    requires
        is_model_of(name, values, model),
        0 <= i <= j < model.s21_table.len(),
    ensures
        model.name@ == name,
        model.oip3_dbm == 30 * UNIT,
        model.use_measured_phase,
        model.s21_table.len() == data_points(values, values.len() as int).len(),
        model.s11_table.len() == model.s21_table.len(),
        model.s22_table.len() == model.s21_table.len(),
        model.s11_table[i].0 == model.s21_table[i].0,
        model.s22_table[i].0 == model.s21_table[i].0,
        model.s21_table[i].0 <= model.s21_table[j].0,
        exists|p: DataPoint|
            {
                &&& #[trigger] data_points(values, values.len() as int).contains(p)
                &&& model.s21_table[i] == (p.freq_mhz, p.s21_db, p.s21_deg)
                &&& model.s11_table[i].1 == p.s11_db
                &&& model.s22_table[i].1 == p.s22_db
            },
{
    broadcast use group_to_multiset_ensures;

    let raw = data_points(values, values.len() as int);
    let points = by_frequency(raw);
    by_frequency_sorts(raw);
    assert(points[i].freq_mhz <= points[j].freq_mhz);
    let p = points[i];
    assert(points.contains(p));
    assert(points.to_multiset().count(p) > 0);
    assert(raw.to_multiset().count(p) > 0);
    assert(raw.contains(p));
}

/// The finest spacing of a table is a spacing between two neighbours, is positive, and no positive
/// spacing between neighbours is finer. There is none only where frequency never rises.
pub proof fn finest_spacing_is_the_least(table: Seq<(Micro, Micro, Micro)>, n: int, k: int)
    requires
        0 <= n <= table.len(),
    ensures
        S2pModel::min_step(table, n) matches Some(step) ==> step > 0 && exists|j: int|
            0 < j < n && (#[trigger] table[j]).0 - table[j - 1].0 == step,
        0 < k < n && table[k].0 > table[k - 1].0 ==> (S2pModel::min_step(table, n) matches Some(
            step,
        ) && step <= table[k].0 - table[k - 1].0),
    decreases n,
{
    if n >= 2 {
        finest_spacing_is_the_least(table, n - 1, k);
        if let Some(step) = S2pModel::min_step(table, n) {
            if S2pModel::min_step(table, n - 1) == Some(step) {
                let j = choose|j: int|
                    0 < j < n - 1 && (#[trigger] table[j]).0 - table[j - 1].0 == step;
                assert(table[j].0 - table[j - 1].0 == step);
            } else {
                assert(table[n - 1].0 - table[n - 2].0 == step);
            }
        }
    }
}

/// Unwrapping starts from the first phase as it stands, and turns by at most one turn from one
/// point to the next, and only where the step between them is more than half a turn.
pub proof fn unwrapping_turns_only_at_jumps(table: Seq<(Micro, Micro, Micro)>, k: int)
    requires
        0 < k < table.len(),
    ensures
        unwrapped_phase(table, 0) == table[0].2,
        ({
            let step = table[k].2 - table[k - 1].2;
            let change = unwrapped_phase(table, k) - unwrapped_phase(table, k - 1);
            &&& -180_000_000 <= step <= 180_000_000 ==> change == step
            &&& step > 180_000_000 ==> change == step - 360_000_000
            &&& step < -180_000_000 ==> change == step + 360_000_000
        }),
{
    let a = turns(table, k - 1);
    let b = turns(table, k);
    assert(b * FULL_TURN - a * FULL_TURN == (b - a) * FULL_TURN) by (nonlinear_arith);
    assert(turns(table, 0) * FULL_TURN == 0) by (nonlinear_arith)
        requires
            turns(table, 0) == 0,
    ;
}

/// A token of an option line sets the unit or the format it names, in any case of its letters, and
/// leaves the other alone; one that names neither changes nothing. The last to name a unit or a
/// format has its way.
pub proof fn option_tokens_set_what_they_name(options: Options, other: Options, token: Seq<char>)
    ensures
        ({
            let after = after_token(options, token);
            let upper = uppercase(token);
            let names_unit = upper == "HZ"@ || upper == "KHZ"@ || upper == "MHZ"@ || upper
                == "GHZ"@;
            let names_format = upper == "DB"@ || upper == "MA"@ || upper == "RI"@;
            &&& upper == "HZ"@ ==> after.unit == FreqUnit::Hz
            &&& upper == "KHZ"@ ==> after.unit == FreqUnit::KHz
            &&& upper == "MHZ"@ ==> after.unit == FreqUnit::MHz
            &&& upper == "GHZ"@ ==> after.unit == FreqUnit::GHz
            &&& upper == "DB"@ ==> after.format == ParamFormat::Db
            &&& upper == "MA"@ ==> after.format == ParamFormat::Ma
            &&& upper == "RI"@ ==> after.format == ParamFormat::Ri
            &&& !names_unit ==> after.unit == options.unit
            &&& !names_format ==> after.format == options.format
            &&& names_unit ==> after.unit == after_token(other, token).unit
            &&& names_format ==> after.format == after_token(other, token).format
        }),
{
    reveal_strlit("HZ");
    reveal_strlit("KHZ");
    reveal_strlit("MHZ");
    reveal_strlit("GHZ");
    reveal_strlit("DB");
    reveal_strlit("MA");
    reveal_strlit("RI");
    assert("HZ"@.len() == 2 && "DB"@.len() == 2 && "MA"@.len() == 2 && "RI"@.len() == 2);
    assert("KHZ"@[0] == 'K' && "MHZ"@[0] == 'M' && "GHZ"@[0] == 'G' && "HZ"@[0] == 'H');
    assert("DB"@[0] == 'D' && "MA"@[0] == 'M' && "RI"@[0] == 'R');
}

/// What a line can do. It adds at most one row, at the end; an option line adds none, and no other
/// line changes the options. A row of data has nine words, the first nine of the line, and holds
/// the options then in force; a noise row comes of a line of exactly five words, once there is
/// data, and holds the second of them. Any other line changes nothing.
pub proof fn lines_add_at_most_one_row(state: FileState, line: Seq<char>)
    ensures
        ({
            let after = after_line(state, line);
            let words = words_of(line_body(line));
            let is_option = line_body(line).len() > 0 && line_body(line)[0] == '#';
            &&& after.rows.len() == state.rows.len() || after.rows.len() == state.rows.len() + 1
            &&& after.rows.take(state.rows.len() as int) == state.rows
            &&& is_option ==> after.rows == state.rows && after.has_data == state.has_data
            &&& !is_option ==> after.options == state.options
            &&& after.rows.len() > state.rows.len() ==> match after.rows.last() {
                RowView::Data { options, cells } => {
                    &&& options == state.options
                    &&& cells.len() == 9
                    &&& words.len() >= 9
                    &&& forall|i: int| 0 <= i < 9 ==> #[trigger] cells[i] == words[i]
                    &&& after.has_data
                },
                RowView::Noise { figure } => {
                    &&& words.len() == 5
                    &&& figure == words[1]
                    &&& state.has_data
                },
            }
            &&& !is_option && line_body(line).len() > 0 && words.len() >= 9 ==> after.rows.len()
                > state.rows.len() && after.rows.last() is Data
            &&& !is_option && line_body(line).len() > 0 && words.len() == 5 && state.has_data
                ==> after.rows.len() > state.rows.len() && after.rows.last() is Noise
            &&& !is_option && (words.len() < 5 || 5 < words.len() < 9) ==> after == state
            &&& words.len() == 5 && !state.has_data && !is_option ==> after == state
        }),
{
    let after = after_line(state, line);
    assert(state.rows.take(state.rows.len() as int) =~= state.rows);
    assert(after.rows.take(state.rows.len() as int) =~= state.rows);
}

/// Whether there is data is whether a row of data has been added.
pub proof fn data_is_seen_with_its_first_row(lines: Seq<Seq<char>>, n: int)
    requires
        0 <= n <= lines.len(),
    ensures
        file_state(lines, n).has_data <==> exists|k: int|
            0 <= k < file_state(lines, n).rows.len() && (#[trigger] file_state(
                lines,
                n,
            ).rows[k]) is Data,
        file_state(lines, 0).options == (Options { unit: FreqUnit::MHz, format: ParamFormat::Ma }),
    decreases n,
{
    if n > 0 {
        data_is_seen_with_its_first_row(lines, n - 1);
        let before = file_state(lines, n - 1);
        let after = file_state(lines, n);
        lines_add_at_most_one_row(before, lines[n - 1]);
        if exists|k: int| 0 <= k < before.rows.len() && (#[trigger] before.rows[k]) is Data {
            let k = choose|k: int| 0 <= k < before.rows.len() && (#[trigger] before.rows[k]) is Data;
            assert(after.rows.take(before.rows.len() as int)[k] == after.rows[k]);
            assert(after.rows[k] is Data);
        }
        if exists|k: int| 0 <= k < after.rows.len() && (#[trigger] after.rows[k]) is Data {
            let k = choose|k: int| 0 <= k < after.rows.len() && (#[trigger] after.rows[k]) is Data;
            if k < before.rows.len() {
                assert(after.rows.take(before.rows.len() as int)[k] == after.rows[k]);
                assert(before.rows[k] is Data);
            }
        }
        if after.has_data && !before.has_data {
            assert(after.rows[after.rows.len() - 1] is Data);
        }
    }
}

/// What follows an exclamation mark has no say, nor has white space around the rest of a line.
pub proof fn comments_have_no_say(state: FileState, line: Seq<char>, comment: Seq<char>)
    requires
        !line.contains('!'),
    ensures
        after_line(state, line.push('!') + comment) == after_line(state, line),
        line_body(line) == trimmed(line),
{
    pieces_of_parted_texts(line, '!', comment);
    a_text_without_separators_is_one_piece(line, '!');
    assert((pieces(line, '!') + pieces(comment, '!'))[0] == line);
}

impl S2pModel {
    /// The noise figure at a frequency: the measured one, or the loss if that is more.
    pub open spec fn noise_at(&self, freq: int) -> Ratio {
        let gain = interpolated(gain_table(self.s21_table@), freq);
        if self.noise_figure_db * gain.under >= -gain.over {
            whole(self.noise_figure_db as int)
        } else {
            Ratio { over: (-gain.over) as i128, under: gain.under }
        }
    }

    /// How long the impulse response can last.
    pub open spec fn ringing(&self) -> Ratio {
        match Self::min_step(self.s21_table@, self.s21_table.len() as int) {
            Some(step) => Ratio { over: 1_000_000_000_000_000, under: step as i128 },
            None => whole(0),
        }
    }
}

/// The noise figure of a part at a frequency is never better than its measured one nor than its loss
/// there, and is one of the two.
pub proof fn noise_is_never_better_than_the_loss(model: S2pModel, freq: int)
    requires
        s21_within_limit(model.s21_table@),
    ensures
        ({
            let gain = interpolated(gain_table(model.s21_table@), freq);
            let nf = model.noise_at(freq);
            &&& nf.wf() && gain.wf()
            &&& nf.over >= model.noise_figure_db * nf.under
            &&& nf.over * gain.under >= -gain.over * nf.under
            &&& nf.equals(model.noise_figure_db as int, 1) || nf.equals(
                -gain.over,
                gain.under as int,
            )
        }),
{
    let gain = interpolated(gain_table(model.s21_table@), freq);
    gain_stays_within_limit(model.s21_table@, freq);
    let nf = model.noise_at(freq);
    let (f, over, under) = (model.noise_figure_db as int, gain.over as int, gain.under as int);
    if f * under >= -over {
        assert(f * 1 == f && -over * 1 == -over) by (nonlinear_arith);
    } else {
        assert(nf.over == -over && nf.under == under);
        assert((-over) * under == -over * under) by (nonlinear_arith);
    }
}

/// A part rings as long as its finest spacing resolves: that time and that spacing make one period,
/// and the finer the spacing the longer. A table in which frequency never rises has none.
pub proof fn ringing_times_spacing_is_one(model: S2pModel, k: int)
    requires
        s21_within_limit(model.s21_table@),
        0 < k < model.s21_table.len(),
        model.s21_table[k].0 > model.s21_table[k - 1].0,
    ensures
        model.ringing().wf(),
        model.ringing().over == 1_000_000_000_000_000,
        model.ringing().under <= model.s21_table[k].0 - model.s21_table[k - 1].0,
        exists|j: int|
            0 < j < model.s21_table.len() && (#[trigger] model.s21_table[j]).0
                - model.s21_table[j - 1].0 == model.ringing().under,
{
    let table = model.s21_table@;
    let n = table.len() as int;
    finest_spacing_is_the_least(table, n, k);
    let step = S2pModel::min_step(table, n)->0;
    let j = choose|j: int| 0 < j < n && (#[trigger] table[j]).0 - table[j - 1].0 == step;
    assert(within_limit(table[j].0) && within_limit(table[j - 1].0));
    assert(model.s21_table[j].0 - model.s21_table[j - 1].0 == step);
}

} // verus!
