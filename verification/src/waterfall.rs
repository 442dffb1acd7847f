//! The waterfall: a bounded history of spectra, and how a spectrum folds into columns.

use std::collections::VecDeque;
use vstd::arithmetic::div_mod::*;
use vstd::prelude::*;
use crate::display::{Level, NEG_INFINITY_BITS};

verus! {

/// Spectra the waterfall remembers.
pub const WATERFALL_ROWS: usize = 256;

/// Widest waterfall texture built per frame.
pub const WATERFALL_MAX_COLUMNS: usize = 1024;

/// The latest spectra, newest first, and the number of the capture last shown.
pub struct Waterfall {
    rows: VecDeque<Vec<Level>>,
    latest: Option<u64>,
}

/// What a waterfall holds.
pub struct WaterfallView {
    pub rows: Seq<Vec<Level>>,
    pub latest: Option<u64>,
}

impl View for Waterfall {
    type V = WaterfallView;

    closed spec fn view(&self) -> WaterfallView {
        WaterfallView { rows: self.rows@, latest: self.latest }
    }
}

/// The history before a new spectrum of `len` points is added: forgotten if its rows have
/// another length.
pub open spec fn matching_history(rows: Seq<Vec<Level>>, len: nat) -> Seq<Vec<Level>> {
    if rows.len() > 0 && rows[0].len() != len {
        Seq::empty()
    } else {
        rows
    }
}

/// The history with a new spectrum in front, and the oldest dropped if it is full.
pub open spec fn with_newest(rows: Seq<Vec<Level>>, row: Vec<Level>) -> Seq<Vec<Level>> {
    seq![row] + if rows.len() >= WATERFALL_ROWS {
        rows.drop_last()
    } else {
        rows
    }
}

impl Waterfall {
    /// No more rows than the limit, all of one length.
    pub open spec fn wf(&self) -> bool {
        &&& self@.rows.len() <= WATERFALL_ROWS
        &&& forall|i: int|
            0 <= i < self@.rows.len() ==> (#[trigger] self@.rows[i]).len() == self@.rows[0].len()
    }

    /// An empty history, with no capture shown yet.
    pub fn new() -> (waterfall: Self)
        ensures
            waterfall@ == (WaterfallView { rows: Seq::empty(), latest: None }),
            waterfall.wf(),
    {
        let waterfall = Waterfall { rows: VecDeque::new(), latest: None };
        assert(waterfall@.rows =~= Seq::empty());
        waterfall
    }

    /// Number of rows.
    pub fn len(&self) -> (n: usize)
        ensures
            n == self@.rows.len(),
    {
        self.rows.len()
    }

    /// A row, counted from the newest.
    pub fn row(&self, i: usize) -> (row: &Vec<Level>)
        requires
            i < self@.rows.len(),
        ensures
            *row == self@.rows[i as int],
    {
        &self.rows[i]
    }

    /// Forgets every row.
    pub fn clear(&mut self)
        ensures
            final(self)@ == (WaterfallView { rows: Seq::empty(), latest: old(self)@.latest }),
            final(self).wf(),
    {
        self.rows.clear();
        assert(self@.rows =~= Seq::empty());
    }

    /// Shows the spectrum of the capture with a number. A capture shown again, in a repaint,
    /// changes nothing. With a new one, history of another length is forgotten, whether or not
    /// the waterfall is paused; while it is paused, or for an empty spectrum, no row is added.
    pub fn push_frame(&mut self, sequence: u64, row: Vec<Level>, paused: bool)
        requires
            old(self).wf(),
        ensures
            final(self).wf(),
            old(self)@.latest == Some(sequence) ==> final(self)@ == old(self)@,
            old(self)@.latest != Some(sequence) ==> final(self)@ == (WaterfallView {
                rows: shown(old(self)@.rows, row, paused),
                latest: Some(sequence),
            }),
            final(self)@ == old(self)@.after_frame(sequence, row, paused),
    {
        if let Some(latest) = self.latest {
            if latest == sequence {
                return;
            }
        }
        self.latest = Some(sequence);
        if self.rows.len() > 0 && self.rows[0].len() != row.len() {
            self.rows.clear();
        }
        let ghost kept = matching_history(old(self)@.rows, row.len() as nat);
        assert(self@.rows =~= kept);
        if row.len() > 0 && !paused {
            if self.rows.len() >= WATERFALL_ROWS {
                self.rows.pop_back();
            }
            let ghost trimmed = self@.rows;
            self.rows.push_front(row);
            assert(self@.rows =~= seq![row] + trimmed);
            assert(self@.rows =~= with_newest(kept, row));
            assert forall|i: int| 0 <= i < self@.rows.len() implies (
            #[trigger] self@.rows[i]).len() == self@.rows[0].len() by {
                if i > 0 {
                    assert(self@.rows[i] == kept[i - 1]);
                }
            }
        }
    }
}

/// The history after a new capture was shown.
pub open spec fn shown(rows: Seq<Vec<Level>>, row: Vec<Level>, paused: bool) -> Seq<Vec<Level>> {
    let kept = matching_history(rows, row.len() as nat);
    if row.len() > 0 && !paused {
        with_newest(kept, row)
    } else {
        kept
    }
}

/// After a spectrum has been added it is the newest row, and every row has its length.
pub proof fn newest_row_sets_the_length(rows: Seq<Vec<Level>>, row: Vec<Level>, i: int)
    requires
        forall|j: int| 0 <= j < rows.len() ==> (#[trigger] rows[j]).len() == rows[0].len(),
        0 <= i < with_newest(matching_history(rows, row.len() as nat), row).len(),
    ensures
        with_newest(matching_history(rows, row.len() as nat), row)[0] == row,
        with_newest(matching_history(rows, row.len() as nat), row)[i].len() == row.len(),
{
    let kept = matching_history(rows, row.len() as nat);
    if i > 0 {
        assert(with_newest(kept, row)[i] == kept[i - 1]);
    }
}

// ---------------------------------------------------------------------------
// Columns
// ---------------------------------------------------------------------------

/// Columns drawn for a spectrum of `len` points.
pub fn columns(len: usize) -> (width: usize)
    ensures
        width == if len < WATERFALL_MAX_COLUMNS {
            len
        } else {
            WATERFALL_MAX_COLUMNS
        },
        width <= len,
        width == column_count(len as int),
{
    if len < WATERFALL_MAX_COLUMNS {
        len
    } else {
        WATERFALL_MAX_COLUMNS
    }
}

/// How many columns a row is drawn in.
pub open spec fn column_count(len: int) -> int {
    if len < WATERFALL_MAX_COLUMNS {
        len
    } else {
        WATERFALL_MAX_COLUMNS as int
    }
}

/// A row is drawn point by point up to 1024 points, and in 1024 columns beyond that.
pub proof fn long_rows_are_drawn_in_1024_columns(len: int)
    ensures
        len <= 1024 ==> column_count(len) == len,
        len >= 1024 ==> column_count(len) == 1024,
{
}

/// The first point of a column.
pub open spec fn column_start(col: int, len: int, width: int) -> int {
    (col * len) / width
}

proof fn columns_advance(col: int, len: int, width: int)
    requires
        0 <= col,
        0 < width <= len,
    ensures
        0 <= column_start(col, len, width) < column_start(col + 1, len, width),
        column_start(0, len, width) == 0,
        column_start(width, len, width) == len,
        col < width ==> column_start(col + 1, len, width) <= len,
{
    let a = col * len;
    let b = (col + 1) * len;
    assert(b == a + len) by (nonlinear_arith)
        requires
            a == col * len,
            b == (col + 1) * len,
    ;
    assert(0 <= a) by (nonlinear_arith)
        requires
            a == col * len,
            0 <= col,
            0 <= len,
    ;
    lemma_div_pos_is_pos(a, width);
    lemma_div_is_ordered(a + width, b, width);
    assert((a + width) / width == a / width + 1) by {
        lemma_div_plus_one(a, width);
    }
    assert(0int * len == 0) by (nonlinear_arith);
    assert(0int / width == 0) by (nonlinear_arith)
        requires
            width > 0,
    ;
    lemma_div_multiples_vanish(len, width);
    assert(width * len == len * width) by (nonlinear_arith);
    if col < width {
        assert(b <= width * len) by (nonlinear_arith)
            requires
                b == (col + 1) * len,
                col + 1 <= width,
                len >= 0,
        ;
        lemma_div_is_ordered(b, width * len, width);
    }
}

/// The points, first to one past the last, that fold into a column.
pub fn column_range(col: usize, len: usize, width: usize) -> (range: (usize, usize))
    requires
        col < width <= len,
        width <= WATERFALL_MAX_COLUMNS,
    ensures
        range.0 == column_start(col as int, len as int, width as int),
        range.1 == column_start(col + 1, len as int, width as int),
        range.0 < range.1 <= len,
{
    proof {
        columns_advance(col as int, len as int, width as int);
    }
    assert(0 <= col * len <= 1024 * 0xffff_ffff_ffff_ffff) by (nonlinear_arith)
        requires
            0 <= col < 1024,
            0 <= len <= 0xffff_ffff_ffff_ffff,
    ;
    assert(0 <= (col + 1) * len <= 1024 * 0xffff_ffff_ffff_ffff) by (nonlinear_arith)
        requires
            0 <= col < 1024,
            0 <= len <= 0xffff_ffff_ffff_ffff,
    ;
    let wide: u128 = len as u128;
    let lo: u128 = (col as u128 * wide) / width as u128;
    let hi: u128 = ((col as u128 + 1) * wide) / width as u128;
    (lo as usize, hi as usize)
}

/// The columns cover a spectrum without gap or overlap: the first starts at its first point,
/// each starts where the one before stops, and the last stops at its end.
pub proof fn columns_tile_the_spectrum(col: int, len: int, width: int)
    requires
        0 <= col < width <= len,
    ensures
        column_start(0, len, width) == 0,
        column_start(col, len, width) < column_start(col + 1, len, width),
        column_start(width, len, width) == len,
{
    columns_advance(col, len, width);
}

/// The strongest level of a stretch of a row: no number there is above it. Without any number
/// it is negative infinity.
pub open spec fn is_hold(row: Seq<Level>, lo: int, hi: int, hold: Level) -> bool {
    &&& !hold.is_nan()
    &&& hold.bits == NEG_INFINITY_BITS || exists|i: int|
        lo <= i < hi && hold == #[trigger] row[i]
    &&& forall|i: int| lo <= i < hi ==> !(#[trigger] row[i]).above(hold)
}

/// Folds a stretch of a row into its strongest level, so that a tone narrower than a column
/// still paints it.
pub fn max_hold(row: &Vec<Level>, lo: usize, hi: usize) -> (hold: Level)
    requires
        lo <= hi <= row.len(),
    ensures
        is_hold(row@, lo as int, hi as int, hold),
{
    let mut hold: Level = Level { bits: NEG_INFINITY_BITS };
    let mut i: usize = lo;
    while i < hi
        invariant
            lo <= i <= hi <= row.len(),
            is_hold(row@, lo as int, i as int, hold),
        decreases hi - i,
    {
        let level: Level = row[i];
        if level.is_above(hold) {
            hold = level;
            assert(row@[i as int] == hold);
        } else if hold.bits != NEG_INFINITY_BITS {
            let ghost j = choose|j: int| lo <= j < i && hold == #[trigger] row@[j];
            assert(lo <= j < i + 1 && hold == row@[j]);
        }
        i += 1;
    }
    hold
}

/// The held level of each column of a row.
pub fn held_columns(row: &Vec<Level>) -> (held: Vec<Level>)
    ensures
        held.len() == if row.len() < WATERFALL_MAX_COLUMNS {
            row.len()
        } else {
            WATERFALL_MAX_COLUMNS
        },
        forall|col: int|
            0 <= col < held.len() ==> is_hold(
                row@,
                column_start(col, row.len() as int, held.len() as int),
                column_start(col + 1, row.len() as int, held.len() as int),
                #[trigger] held[col],
            ),
{
    let width: usize = columns(row.len());
    let mut held: Vec<Level> = Vec::new();
    let mut col: usize = 0;
    while col < width
        invariant
            width <= row.len(),
            width <= WATERFALL_MAX_COLUMNS,
            col <= width,
            held.len() == col,
            forall|c: int|
                0 <= c < col ==> is_hold(
                    row@,
                    column_start(c, row.len() as int, width as int),
                    column_start(c + 1, row.len() as int, width as int),
                    #[trigger] held[c],
                ),
        decreases width - col,
    {
        let (lo, hi) = column_range(col, row.len(), width);
        held.push(max_hold(row, lo, hi));
        col += 1;
    }
    held
}

/// A new row comes first and moves the others on by one, and only the oldest is lost, only when
/// there is no room for it.
pub proof fn new_rows_move_the_others_on(rows: Seq<Vec<Level>>, row: Vec<Level>, i: int)
    requires
        rows.len() <= WATERFALL_ROWS,
    ensures
        ({
            let after = with_newest(rows, row);
            &&& after[0] == row
            &&& 0 <= i < after.len() - 1 ==> after[i + 1] == rows[i]
            &&& rows.len() < 256 ==> after.len() == rows.len() + 1
            &&& rows.len() == 256 ==> after.len() == 256
        }),
{
}

/// What showing a row does to the history. While paused, or for an empty row, it adds nothing; a
/// row of another length than those there starts the history over; any other is added.
pub proof fn rows_are_added_unless_paused(
    rows: Seq<Vec<Level>>,
    row: Vec<Level>,
    paused: bool,
    i: int,
)
    requires
        rows.len() <= WATERFALL_ROWS,
        forall|j: int| 0 <= j < rows.len() ==> (#[trigger] rows[j]).len() == rows[0].len(),
    ensures
        ({
            let after = shown(rows, row, paused);
            let fits = rows.len() == 0 || rows[0].len() == row.len();
            let adds = row.len() > 0 && !paused;
            &&& fits && !adds ==> after == rows
            &&& !fits && !adds ==> after.len() == 0
            &&& !fits && adds ==> after == seq![row]
            &&& fits && adds ==> after[0] == row && (0 < i < after.len() ==> after[i] == rows[i
                - 1]) && (rows.len() < 256 ==> after.len() == rows.len() + 1)
            &&& after.len() <= 256
        }),
{
    let kept = matching_history(rows, row.len() as nat);
    if kept.len() == 0 {
        assert(with_newest(kept, row) =~= seq![row]);
    }
}

/// The columns of a row are as wide as each other to within one bin.
pub proof fn columns_are_evenly_wide(col: int, len: int, width: int)
    requires
        0 <= col < width,
        0 <= len,
    ensures
        len / width <= column_start(col + 1, len, width) - column_start(col, len, width) <= len
            / width + 1,
{
    let (a, b) = (col * len, (col + 1) * len);
    assert(b == a + len) by (nonlinear_arith)
        requires
            a == col * len,
            b == (col + 1) * len,
    ;
    lemma_fundamental_div_mod(a, width);
    lemma_mod_bound(a, width);
    lemma_fundamental_div_mod(b, width);
    lemma_mod_bound(b, width);
    lemma_fundamental_div_mod(len, width);
    lemma_mod_bound(len, width);
    let (p, q, r) = (a / width, b / width, len / width);
    assert(r <= q - p <= r + 1) by (nonlinear_arith)
        requires
            b == a + len,
            a == width * p + a % width,
            b == width * q + b % width,
            len == width * r + len % width,
            0 <= a % width < width,
            0 <= b % width < width,
            0 <= len % width < width,
            width > 0,
    ;
}

impl WaterfallView {
    /// The waterfall after the capture with a number was shown.
    pub open spec fn after_frame(self, sequence: u64, row: Vec<Level>, paused: bool) -> WaterfallView {
        if self.latest == Some(sequence) {
            self
        } else {
            WaterfallView { rows: shown(self.rows, row, paused), latest: Some(sequence) }
        }
    }
}

/// Drawing a capture again changes nothing, whatever is drawn and however often; a capture of any
/// other number is a new one. Where it fits, it becomes the newest row, unless the waterfall is
/// paused, and it is the latest either way, so that a capture shown while paused is not added by a
/// repaint afterwards.
pub proof fn repaints_add_nothing(
    view: WaterfallView,
    sequence: u64,
    row: Vec<Level>,
    again: Vec<Level>,
    paused: bool,
    later_paused: bool,
)
    ensures
        ({
            let once = view.after_frame(sequence, row, paused);
            &&& once.latest == Some(sequence)
            &&& once.after_frame(sequence, again, later_paused) == once
            &&& view.latest != Some(sequence) && !paused && row.len() > 0 ==> once.rows.len() > 0
                && once.rows[0] == row
            &&& view.latest == Some(sequence) ==> once == view
        }),
{
}

} // verus!
