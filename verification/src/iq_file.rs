//! Recorded IQ files: their formats, the loader's cache, and playback at another sample rate.

use vstd::arithmetic::div_mod::*;
use vstd::prelude::*;
use vstd::string::StringExecFns;
use vstd::utf8::{decode_utf8, valid_utf8};
use crate::clock::{SampleClock, BLOCK_LIMIT, CLOCK_LIMIT, RATE_LIMIT};
use crate::file_path::FilePath;
use crate::signal::{fresh_tone, SignalGenerator};
use crate::text::{chars_of, decimal, numeral, pieces, split_on, string_of, trim, trimmed, views};
use crate::units::Micro;

verus! {

/// IQ file format specification.
#[derive(Clone, Copy, Debug, PartialEq, Eq, Structural)]
pub enum IqFormat {
    /// Binary interleaved f32: I0, Q0, I1, Q1, ...
    BinaryF32,
    /// Binary interleaved f64: I0, Q0, I1, Q1, ...
    BinaryF64,
    /// Binary interleaved i16: I0, Q0, I1, Q1, ... (scaled to [-1, 1])
    Sc16,
    /// CSV with I, Q columns
    Csv,
}

impl IqFormat {
    pub open spec fn label_text(self) -> Seq<char> {
        match self {
            IqFormat::BinaryF32 => "Binary f32 (fc32)"@,
            IqFormat::BinaryF64 => "Binary f64 (fc64)"@,
            IqFormat::Sc16 => "Binary i16 (sc16)"@,
            IqFormat::Csv => "CSV (I, Q)"@,
        }
    }

    /// Name shown to the user.
    pub fn label(self) -> (text: &'static str)
        ensures
            text@ == self.label_text(),
    {
        match self {
            IqFormat::BinaryF32 => "Binary f32 (fc32)",
            IqFormat::BinaryF64 => "Binary f64 (fc64)",
            IqFormat::Sc16 => "Binary i16 (sc16)",
            IqFormat::Csv => "CSV (I, Q)",
        }
    }

    /// Bytes of one number in a binary format; zero for text.
    pub open spec fn width(self) -> int {
        match self {
            IqFormat::BinaryF32 => 4,
            IqFormat::BinaryF64 => 8,
            IqFormat::Sc16 => 2,
            IqFormat::Csv => 0,
        }
    }
}

/// One sample as the file encodes it.
#[derive(Clone, Copy, Debug, PartialEq, Eq, Structural)]
pub enum RawIq {
    /// Bit patterns of two single-precision numbers.
    F32(u32, u32),
    /// Bit patterns of two double-precision numbers.
    F64(u64, u64),
    /// Two integers, full scale 32768.
    I16(i16, i16),
}

/// Why a file could not be used.
#[derive(Clone, Debug)]
pub enum IqError {
    NoPath,
    /// The size is not a multiple of one sample of the format.
    PartialSample(IqFormat),
    /// The bytes are not UTF-8; the reason as the decoder words it.
    InvalidUtf8(String),
    /// A CSV line (counted from one) with fewer than two fields.
    MissingField { line: usize },
    /// A CSV line whose I field is not a number; the reason as the number parser words it.
    InvalidI { line: usize, reason: String },
    /// A CSV line whose Q field is not a number; the reason as the number parser words it.
    InvalidQ { line: usize, reason: String },
}

/// "Line {line}: {rest}".
pub open spec fn line_message(line: usize, rest: Seq<char>) -> Seq<char> {
    "Line "@ + numeral(line as nat) + rest
}

impl IqError {
    pub open spec fn message_text(&self) -> Seq<char> {
        match self {
            IqError::NoPath => "No file path set"@,
            IqError::PartialSample(format) => match format {
                IqFormat::BinaryF32 => "File size not a multiple of 8 bytes (2 × f32)"@,
                IqFormat::BinaryF64 => "File size not a multiple of 16 bytes (2 × f64)"@,
                _ => "File size not a multiple of 4 bytes (2 × i16)"@,
            },
            IqError::InvalidUtf8(reason) => "Invalid UTF-8: "@ + reason@,
            IqError::MissingField { line } => line_message(*line, ": expected I,Q values"@),
            IqError::InvalidI { line, reason } => line_message(
                *line,
                ": invalid I value: "@ + reason@,
            ),
            IqError::InvalidQ { line, reason } => line_message(
                *line,
                ": invalid Q value: "@ + reason@,
            ),
        }
    }

    /// The message shown to the user.
    pub fn message(&self) -> (text: String)
        ensures
            text@ == self.message_text(),
    {
        match self {
            IqError::NoPath => "No file path set".to_owned(),
            IqError::PartialSample(format) => match format {
                IqFormat::BinaryF32 => "File size not a multiple of 8 bytes (2 × f32)".to_owned(),
                IqFormat::BinaryF64 => "File size not a multiple of 16 bytes (2 × f64)".to_owned(),
                _ => "File size not a multiple of 4 bytes (2 × i16)".to_owned(),
            },
            IqError::InvalidUtf8(reason) => "Invalid UTF-8: ".to_owned().concat(reason.as_str()),
            IqError::MissingField { line } => {
                "Line ".to_owned().concat(decimal(*line as u64).as_str()).concat(
                    ": expected I,Q values",
                )
            },
            IqError::InvalidI { line, reason } => {
                let tail: String = ": invalid I value: ".to_owned().concat(reason.as_str());
                "Line ".to_owned().concat(decimal(*line as u64).as_str()).concat(tail.as_str())
            },
            IqError::InvalidQ { line, reason } => {
                let tail: String = ": invalid Q value: ".to_owned().concat(reason.as_str());
                "Line ".to_owned().concat(decimal(*line as u64).as_str()).concat(tail.as_str())
            },
        }
    }
}

// ---------------------------------------------------------------------------
// Binary formats
// ---------------------------------------------------------------------------

/// The number whose little-endian bytes are given.
pub open spec fn little_endian(bytes: Seq<u8>) -> int
    decreases bytes.len(),
{
    if bytes.len() == 0 {
        0
    } else {
        bytes[0] + 256 * little_endian(bytes.drop_first())
    }
}

/// The signed reading of a 16-bit word.
pub open spec fn two_complement16(word: int) -> int {
    if word < 0x8000 {
        word
    } else {
        word - 0x1_0000
    }
}

/// Sample `k` of a binary file.
pub open spec fn binary_sample(format: IqFormat, data: Seq<u8>, k: int) -> RawIq {
    let w = format.width();
    let i = little_endian(data.subrange(2 * w * k, 2 * w * k + w));
    let q = little_endian(data.subrange(2 * w * k + w, 2 * w * (k + 1)));
    match format {
        IqFormat::BinaryF32 => RawIq::F32(i as u32, q as u32),
        IqFormat::BinaryF64 => RawIq::F64(i as u64, q as u64),
        _ => RawIq::I16(two_complement16(i) as i16, two_complement16(q) as i16),
    }
}

proof fn little_endian_bounds(bytes: Seq<u8>)
    ensures
        0 <= little_endian(bytes),
        bytes.len() == 2 ==> little_endian(bytes) < 0x1_0000,
        bytes.len() == 4 ==> little_endian(bytes) < 0x1_0000_0000,
        bytes.len() == 8 ==> little_endian(bytes) < 0x1_0000_0000_0000_0000,
    decreases bytes.len(),
{
    reveal_with_fuel(little_endian, 9);
    if bytes.len() > 0 {
        little_endian_bounds(bytes.drop_first());
    }
}

/// Reads up to eight bytes, least significant first.
fn read_word(data: &Vec<u8>, at: usize, width: usize) -> (word: u64)
    requires
        at + width <= data.len(),
        width == 2 || width == 4 || width == 8,
    ensures
        word == little_endian(data@.subrange(at as int, at + width)),
{
    let mut word: u64 = 0;
    let mut left: usize = width;
    let ghost all = data@.subrange(at as int, at + width);
    assert(all.subrange(width as int, width as int) =~= Seq::empty());
    while left > 0
        invariant
            left <= width,
            at + width <= data.len(),
            width == 2 || width == 4 || width == 8,
            all == data@.subrange(at as int, at + width),
            word == little_endian(all.subrange(left as int, width as int)),
        decreases left,
    {
        let ghost tail = all.subrange(left as int, width as int);
        let ghost longer = all.subrange(left - 1, width as int);
        proof {
            assert(longer.drop_first() =~= tail);
            assert(longer[0] == data@[at + left - 1]);
            tail_is_small(tail);
        }
        left -= 1;
        word = data[at + left] as u64 + 256 * word;
    }
    assert(all.subrange(0, width as int) =~= all);
    word
}

proof fn tail_is_small(bytes: Seq<u8>)
    requires
        bytes.len() <= 7,
    ensures
        0 <= little_endian(bytes) <= 0xff_ffff_ffff_ffff,
{
    reveal_with_fuel(little_endian, 9);
    little_endian_bounds(bytes);
}

/// Decodes an interleaved binary file. It fails exactly when the size is not a whole number of
/// samples.
pub fn decode_binary(format: IqFormat, data: &Vec<u8>) -> (samples: Result<Vec<RawIq>, IqError>)
    requires
        format != IqFormat::Csv,
    ensures
        samples is Ok <==> data.len() as int % (2 * format.width()) == 0,
        samples is Err ==> samples->Err_0 == IqError::PartialSample(format),
        samples is Ok ==> samples->Ok_0.len() == data.len() as int / (2 * format.width()),
        samples is Ok ==> forall|k: int|
            0 <= k < samples->Ok_0.len() ==> #[trigger] samples->Ok_0[k] == binary_sample(
                format,
                data@,
                k,
            ),
{
    let width: usize = match format {
        IqFormat::BinaryF32 => 4,
        IqFormat::BinaryF64 => 8,
        _ => 2,
    };
    let stride: usize = 2 * width;
    if data.len() % stride != 0 {
        return Err(IqError::PartialSample(format));
    }
    let count: usize = data.len() / stride;
    let mut samples: Vec<RawIq> = Vec::new();
    let mut k: usize = 0;
    while k < count
        invariant
            format != IqFormat::Csv,
            width == format.width(),
            stride == 2 * width,
            0 < stride <= 16,
            count == data.len() as int / stride as int,
            k <= count,
            samples.len() == k,
            forall|j: int| 0 <= j < k ==> #[trigger] samples[j] == binary_sample(format, data@, j),
        decreases count - k,
    {
        proof {
            lemma_fundamental_div_mod(data.len() as int, stride as int);
            lemma_mod_bound(data.len() as int, stride as int);
            assert(stride * (k + 1) <= stride * count) by (nonlinear_arith)
                requires
                    k + 1 <= count,
                    0 < stride,
            ;
            assert(stride * (k + 1) == stride * k + stride) by (nonlinear_arith);
            assert(2 * width * k == stride * k) by (nonlinear_arith)
                requires
                    stride == 2 * width,
            ;
            assert(2 * width * (k + 1) == stride * (k + 1)) by (nonlinear_arith)
                requires
                    stride == 2 * width,
            ;
            assert(0 <= stride * k) by (nonlinear_arith)
                requires
                    0 <= k,
                    0 < stride,
            ;
        }
        let at: usize = stride * k;
        let i: u64 = read_word(data, at, width);
        let q: u64 = read_word(data, at + width, width);
        proof {
            little_endian_bounds(data@.subrange(at as int, at + width));
            little_endian_bounds(data@.subrange(at + width, at + 2 * width));
        }
        let sample: RawIq = match format {
            IqFormat::BinaryF32 => RawIq::F32(i as u32, q as u32),
            IqFormat::BinaryF64 => RawIq::F64(i, q),
            _ => RawIq::I16(signed16(i), signed16(q)),
        };
        samples.push(sample);
        k += 1;
    }
    Ok(samples)
}

fn signed16(word: u64) -> (value: i16)
    requires
        word < 0x1_0000,
    ensures
        value == two_complement16(word as int),
{
    if word < 0x8000 {
        word as i16
    } else {
        (word as i64 - 0x1_0000) as i16
    }
}

// ---------------------------------------------------------------------------
// CSV
// ---------------------------------------------------------------------------

/// The two fields of one CSV line, trimmed, still as text.
#[derive(Clone, Debug)]
pub struct CsvRow {
    /// Line number, counted from one.
    pub line: usize,
    pub i: String,
    pub q: String,
}

/// The rows of a CSV file up to its end, or up to the first line that lacks a field.
#[derive(Clone, Debug)]
pub struct CsvScan {
    pub rows: Vec<CsvRow>,
    /// The line, counted from one, at which the scan stopped for want of a field.
    pub stopped: Option<usize>,
}

/// A line that carries no sample: blank, or a comment.
pub open spec fn skipped_line(line: Seq<char>) -> bool {
    let body = trimmed(line);
    body.len() == 0 || body[0] == '#'
}

/// The comma-separated fields of a line.
pub open spec fn line_fields(line: Seq<char>) -> Seq<Seq<char>> {
    pieces(trimmed(line), ',')
}

/// The rows as line numbers and field texts.
pub open spec fn row_views(rows: Seq<CsvRow>) -> Seq<(int, Seq<char>, Seq<char>)> {
    rows.map_values(|row: CsvRow| (row.line as int, row.i@, row.q@))
}

/// The rows found in the first `n` lines.
pub open spec fn rows_before(lines: Seq<Seq<char>>, n: int) -> Seq<(int, Seq<char>, Seq<char>)>
    decreases n,
{
    if n <= 0 {
        Seq::empty()
    } else {
        let before = rows_before(lines, n - 1);
        let line = lines[n - 1];
        if skipped_line(line) {
            before
        } else {
            let fields = line_fields(line);
            before.push((n, trimmed(fields[0]), trimmed(fields[1])))
        }
    }
}

/// A line that should carry a sample but has fewer than two fields.
pub open spec fn broken_line(line: Seq<char>) -> bool {
    !skipped_line(line) && line_fields(line).len() < 2
}

/// What scanning a text must return: where it stopped, and the rows before that.
pub open spec fn is_scan_of(text: Seq<char>, scan: CsvScan) -> bool {
    let lines = pieces(text, '\n');
    match scan.stopped {
        None => {
            &&& forall|n: int| 0 <= n < lines.len() ==> !broken_line(#[trigger] lines[n])
            &&& row_views(scan.rows@) == rows_before(lines, lines.len() as int)
        },
        Some(line) => {
            &&& 1 <= line <= lines.len()
            &&& broken_line(lines[line - 1])
            &&& forall|n: int| 0 <= n < line - 1 ==> !broken_line(#[trigger] lines[n])
            &&& row_views(scan.rows@) == rows_before(lines, line - 1)
        },
    }
}

/// Splits a CSV text into rows, stopping at the first line with fewer than two fields.
pub fn scan_csv(text: &str) -> (scan: CsvScan)
    ensures
        is_scan_of(text@, scan),
{
    let chars: Vec<char> = chars_of(text);
    let lines: Vec<Vec<char>> = split_on(&chars, '\n');
    let ghost specs = pieces(text@, '\n');
    assert(views(lines@) == specs);
    let mut rows: Vec<CsvRow> = Vec::new();
    let mut n: usize = 0;
    assert(row_views(rows@) =~= rows_before(specs, 0));
    while n < lines.len()
        invariant
            specs == pieces(text@, '\n'),
            views(lines@) == specs,
            n <= lines.len(),
            row_views(rows@) == rows_before(specs, n as int),
            forall|m: int| 0 <= m < n ==> !broken_line(#[trigger] specs[m]),
        decreases lines.len() - n,
    {
        assert(specs[n as int] == lines[n as int]@);
        let body: Vec<char> = trim(&lines[n]);
        if body.len() > 0 && body[0] != '#' {
            let fields: Vec<Vec<char>> = split_on(&body, ',');
            let ghost parts = line_fields(specs[n as int]);
            assert(views(fields@) == parts);
            assert(fields.len() == parts.len());
            if fields.len() < 2 {
                return CsvScan { rows, stopped: Some(n + 1) };
            }
            assert(parts[0] == fields[0]@ && parts[1] == fields[1]@);
            let i: String = string_of(&trim(&fields[0]));
            let q: String = string_of(&trim(&fields[1]));
            let ghost before = row_views(rows@);
            rows.push(CsvRow { line: n + 1, i, q });
            assert(row_views(rows@) =~= before.push((n + 1, i@, q@)));
        }
        n += 1;
    }
    CsvScan { rows, stopped: None }
}

/// What the number parser made of one row.
#[derive(Clone, Debug)]
pub enum CsvValue {
    /// The bit patterns of the two double-precision numbers.
    Pair(u64, u64),
    /// The I field is not a number, for this reason.
    BadI(String),
    /// The Q field is not a number, for this reason.
    BadQ(String),
}

/// The samples of a scanned file, from what the number parser made of its rows. The first row
/// with a bad number is reported; failing that, the line the scan stopped at.
pub fn finish_csv(scan: &CsvScan, values: &Vec<CsvValue>) -> (samples: Result<Vec<RawIq>, IqError>)
    requires
        values.len() == scan.rows.len(),
    ensures
        samples is Ok <==> scan.stopped is None && forall|k: int|
            0 <= k < values.len() ==> (#[trigger] values[k]) is Pair,
        samples is Ok ==> samples->Ok_0.len() == values.len(),
        samples is Ok ==> forall|k: int|
            0 <= k < values.len() ==> #[trigger] samples->Ok_0[k] == RawIq::F64(
                values[k]->Pair_0,
                values[k]->Pair_1,
            ),
        samples is Err ==> csv_error(*scan, values@, samples->Err_0),
{
    let mut samples: Vec<RawIq> = Vec::new();
    let mut k: usize = 0;
    while k < values.len()
        invariant
            k <= values.len(),
            values.len() == scan.rows.len(),
            samples.len() == k,
            forall|j: int| 0 <= j < k ==> (#[trigger] values[j]) is Pair,
            forall|j: int|
                0 <= j < k ==> #[trigger] samples[j] == RawIq::F64(
                    values[j]->Pair_0,
                    values[j]->Pair_1,
                ),
        decreases values.len() - k,
    {
        match &values[k] {
            CsvValue::Pair(i, q) => {
                samples.push(RawIq::F64(*i, *q));
            },
            CsvValue::BadI(reason) => {
                assert(!(values[k as int] is Pair));
                return Err(IqError::InvalidI { line: scan.rows[k].line, reason: reason.clone() });
            },
            CsvValue::BadQ(reason) => {
                assert(!(values[k as int] is Pair));
                return Err(IqError::InvalidQ { line: scan.rows[k].line, reason: reason.clone() });
            },
        }
        k += 1;
    }
    match scan.stopped {
        Some(line) => Err(IqError::MissingField { line }),
        None => Ok(samples),
    }
}

/// The error a CSV file is refused with: that of its first row that is not a pair of numbers,
/// or of the line where the scan stopped when every row before it is.
pub open spec fn csv_error(scan: CsvScan, values: Seq<CsvValue>, error: IqError) -> bool {
    ||| {
        &&& forall|k: int| 0 <= k < values.len() ==> (#[trigger] values[k]) is Pair
        &&& scan.stopped is Some
        &&& error == (IqError::MissingField { line: scan.stopped->0 })
    }
    ||| exists|k: int|
        {
            &&& 0 <= k < values.len()
            &&& forall|j: int| 0 <= j < k ==> (#[trigger] values[j]) is Pair
            &&& match #[trigger] values[k] {
                CsvValue::Pair(..) => false,
                CsvValue::BadI(reason) => error matches IqError::InvalidI { line, reason: said }
                    && line == scan.rows[k].line && said@ == reason@,
                CsvValue::BadQ(reason) => error matches IqError::InvalidQ { line, reason: said }
                    && line == scan.rows[k].line && said@ == reason@,
            }
        }
}

// ---------------------------------------------------------------------------
// Loading
// ---------------------------------------------------------------------------

/// `String::from_utf8`: the text whose UTF-8 encoding the bytes are. It succeeds exactly on
/// valid UTF-8; nothing is claimed of the words an error comes with.
#[verifier::external_body]
fn utf8_text(data: Vec<u8>) -> (text: Result<String, String>)
    ensures
        text is Ok <==> valid_utf8(data@),
        text is Ok ==> text->Ok_0@ == decode_utf8(data@),
{
    String::from_utf8(data).map_err(|e| e.to_string())
}

/// The contents of a file: samples, or rows of text whose numbers are still to be parsed.
#[derive(Clone, Debug)]
pub enum IqContent {
    Samples(Vec<RawIq>),
    Rows(CsvScan),
}

/// Decodes the bytes of a file in a format.
pub fn decode_iq(format: IqFormat, data: Vec<u8>) -> (content: Result<IqContent, IqError>)
    ensures
        format == IqFormat::Csv ==> {
            &&& content is Ok <==> valid_utf8(data@)
            &&& content is Ok ==> content->Ok_0 is Rows && is_scan_of(
                decode_utf8(data@),
                content->Ok_0->Rows_0,
            )
            &&& content is Err ==> content->Err_0 is InvalidUtf8
        },
        format != IqFormat::Csv ==> {
            &&& content is Ok <==> data.len() as int % (2 * format.width()) == 0
            &&& content is Err ==> content->Err_0 == IqError::PartialSample(format)
            &&& content is Ok ==> {
                &&& content->Ok_0 is Samples
                &&& content->Ok_0->Samples_0.len() == data.len() as int / (2 * format.width())
                &&& forall|k: int|
                    0 <= k < content->Ok_0->Samples_0.len()
                        ==> #[trigger] content->Ok_0->Samples_0[k] == binary_sample(
                        format,
                        data@,
                        k,
                    )
            }
        },
{
    if matches!(format, IqFormat::Csv) {
        match utf8_text(data) {
            Ok(text) => Ok(IqContent::Rows(scan_csv(text.as_str()))),
            Err(reason) => Err(IqError::InvalidUtf8(reason)),
        }
    } else {
        match decode_binary(format, &data) {
            Ok(samples) => Ok(IqContent::Samples(samples)),
            Err(error) => Err(error),
        }
    }
}

/// IQ file loader: where the file is, how to read it, how to play it, and what was read last.
#[derive(Clone, Debug)]
pub struct IqFileLoader {
    /// Path to the IQ data file.
    pub path: Option<FilePath>,
    /// Format of the IQ data.
    pub format: IqFormat,
    /// Sample rate of the captured data in the file in MHz.
    pub sample_rate_mhz: Micro,
    /// Whether to repeat the playback when the file ends.
    pub repeat: bool,
    /// Idle period in microseconds to wait between repeats.
    pub repeat_period_us: Micro,
    /// Samples of the file read last.
    pub cached_samples: Option<Vec<RawIq>>,
    /// Path of the file read last.
    pub last_path_loaded: Option<FilePath>,
}

impl Default for IqFileLoader {
    fn default() -> (loader: Self)
        ensures
            loader.path is None,
            loader.format == IqFormat::BinaryF32,
            loader.sample_rate_mhz == 1_000_000_000,
            loader.repeat,
            loader.repeat_period_us == 0,
            loader.cached_samples is None,
            loader.last_path_loaded is None,
    {
        IqFileLoader {
            path: None,
            format: IqFormat::BinaryF32,
            sample_rate_mhz: 1_000_000_000,
            repeat: true,
            repeat_period_us: 0,
            cached_samples: None,
            last_path_loaded: None,
        }
    }
}

impl IqFileLoader {
    /// The cached samples are those of the configured file.
    pub open spec fn cache_is_current(&self) -> bool {
        &&& self.path is Some
        &&& self.last_path_loaded is Some
        &&& self.path->0.same(&self.last_path_loaded->0)
        &&& self.cached_samples is Some
    }

    /// The samples of the configured file if they are cached, `None` if the file has to be read
    /// first; an error exactly when no file is configured.
    pub fn load(&self) -> (samples: Result<Option<&Vec<RawIq>>, IqError>)
        ensures
            samples is Err <==> self.path is None,
            samples is Err ==> samples->Err_0 is NoPath,
            samples is Ok ==> (samples->Ok_0 is Some <==> self.cache_is_current()),
            samples is Ok && samples->Ok_0 is Some ==> *samples->Ok_0->0
                == self.cached_samples->0,
    {
        match &self.path {
            None => Err(IqError::NoPath),
            Some(path) => match (&self.last_path_loaded, &self.cached_samples) {
                (Some(last), Some(samples)) => {
                    if path.is_same(last) {
                        Ok(Some(samples))
                    } else {
                        Ok(None)
                    }
                },
                _ => Ok(None),
            },
        }
    }

    /// Remembers the samples just read from the configured file.
    pub fn store(&mut self, samples: Vec<RawIq>)
        requires
            old(self).path is Some,
        ensures
            final(self).cache_is_current(),
            final(self).cached_samples == Some(samples),
            final(self).path == old(self).path,
            final(self).format == old(self).format,
            final(self).sample_rate_mhz == old(self).sample_rate_mhz,
            final(self).repeat == old(self).repeat,
            final(self).repeat_period_us == old(self).repeat_period_us,
    {
        if let Some(path) = &self.path {
            self.last_path_loaded = Some(path.duplicate());
        }
        self.cached_samples = Some(samples);
    }

    /// Clears the cached file so it is forced to reload.
    pub fn clear_cache(&mut self)
        ensures
            final(self).cached_samples is None,
            final(self).last_path_loaded is None,
            !final(self).cache_is_current(),
            final(self).path == old(self).path,
            final(self).format == old(self).format,
            final(self).sample_rate_mhz == old(self).sample_rate_mhz,
            final(self).repeat == old(self).repeat,
            final(self).repeat_period_us == old(self).repeat_period_us,
    {
        self.last_path_loaded = None;
        self.cached_samples = None;
    }
}

// ---------------------------------------------------------------------------
// Playback
// ---------------------------------------------------------------------------

/// Longest file the exact playback arithmetic covers, in samples.
pub const FILE_LIMIT: usize = 4_000_000_000;

/// The remainder of `a` by `b` with the sign of `a`.
pub open spec fn signed_remainder(a: int, b: int) -> int
    recommends
        b > 0,
{
    if a >= 0 {
        a % b
    } else {
        -((-a) % b)
    }
}

impl IqFileLoader {
    /// The rate the file is played at, never below one hertz.
    pub open spec fn file_rate(&self) -> int {
        if self.sample_rate_mhz >= 1 {
            self.sample_rate_mhz as int
        } else {
            1
        }
    }

    /// The pause between repeats, never negative.
    pub open spec fn pause(&self) -> int {
        if self.repeat_period_us >= 0 {
            self.repeat_period_us as int
        } else {
            0
        }
    }

    /// The settings are within the range of exact playback.
    pub open spec fn playable(&self) -> bool {
        &&& self.sample_rate_mhz <= RATE_LIMIT
        &&& self.repeat_period_us <= CLOCK_LIMIT
    }

    /// Which of the `n` samples of the file is heard at output sample `i`, if any.
    ///
    /// Instants are compared after scaling by the output rate, the file rate and 10^12, which
    /// makes all of them whole numbers. The file lasts `n` samples, the cycle adds the pause;
    /// a repeating file is read at the instant's remainder by the cycle. The nearest sample is
    /// taken, halves going up, and instants before zero read the first.
    pub open spec fn heard(&self, n: int, clock: SampleClock, i: int) -> Option<int> {
        let rate = clock.sample_rate_mhz as int;
        let t = clock.scaled_time(i) * self.file_rate();
        let duration = n * 1_000_000_000_000 * rate;
        let cycle = (n * 1_000_000_000_000 + self.pause() * self.file_rate()) * rate;
        let at = if self.repeat {
            signed_remainder(t, cycle)
        } else {
            t
        };
        if at < duration {
            let step = 1_000_000_000_000 * rate;
            let nearest = if at <= 0 {
                0
            } else {
                (2 * at + step) / (2 * step)
            };
            if nearest < n {
                Some(nearest)
            } else {
                None
            }
        } else {
            None
        }
    }

    /// For each output sample, which sample of an `n`-sample file is heard there, if any.
    pub fn playback(&self, n: usize, num_samples: usize, clock: &SampleClock) -> (heard: Vec<
        Option<usize>,
    >)
        requires
            clock.wf(),
            clock.is_near(),
            self.playable(),
            0 < n <= FILE_LIMIT,
            num_samples <= BLOCK_LIMIT,
        ensures
            heard.len() == num_samples,
            forall|i: int|
                0 <= i < num_samples ==> {
                    &&& (#[trigger] heard[i]) is Some <==> self.heard(n as int, *clock, i) is Some
                    &&& heard[i] is Some ==> heard[i]->0 == self.heard(n as int, *clock, i)->0
                    &&& heard[i] is Some ==> heard[i]->0 < n
                },
    {
        let mut heard: Vec<Option<usize>> = Vec::new();
        let mut i: usize = 0;
        while i < num_samples
            invariant
                clock.wf(),
                clock.is_near(),
                self.playable(),
                0 < n <= FILE_LIMIT,
                num_samples <= BLOCK_LIMIT,
                i <= num_samples,
                heard.len() == i,
                forall|j: int|
                    0 <= j < i ==> {
                        &&& (#[trigger] heard[j]) is Some <==> self.heard(
                            n as int,
                            *clock,
                            j,
                        ) is Some
                        &&& heard[j] is Some ==> heard[j]->0 == self.heard(n as int, *clock, j)->0
                        &&& heard[j] is Some ==> heard[j]->0 < n
                    },
            decreases num_samples - i,
        {
            heard.push(self.heard_at(n, clock, i));
            i += 1;
        }
        heard
    }

    /// Which sample of an `n`-sample file is heard at output sample `i`, if any.
    pub fn heard_at(&self, n: usize, clock: &SampleClock, i: usize) -> (index: Option<usize>)
        requires
            clock.wf(),
            clock.is_near(),
            self.playable(),
            0 < n <= FILE_LIMIT,
            i <= BLOCK_LIMIT,
        ensures
            index is Some <==> self.heard(n as int, *clock, i as int) is Some,
            index is Some ==> index->0 == self.heard(n as int, *clock, i as int)->0,
            index is Some ==> index->0 < n,
    {
        let rate: i128 = clock.sample_rate_mhz as i128;
        let file_rate: i128 = if self.sample_rate_mhz >= 1 {
            self.sample_rate_mhz as i128
        } else {
            1
        };
        let pause: i128 = if self.repeat_period_us >= 0 {
            self.repeat_period_us as i128
        } else {
            0
        };
        let scaled: i128 = clock.scaled(i);
        proof {
            playback_bounds(scaled as int, file_rate as int, rate as int, pause as int, n as int);
        }
        let t: i128 = scaled * file_rate;
        let span: i128 = n as i128 * 1_000_000_000_000;
        let duration: i128 = span * rate;
        let cycle: i128 = (span + pause * file_rate) * rate;
        let at: i128 = if self.repeat {
            if t >= 0 {
                t % cycle
            } else {
                -((-t) % cycle)
            }
        } else {
            t
        };
        if at < duration {
            let step: i128 = 1_000_000_000_000 * rate;
            let nearest: i128 = if at <= 0 {
                0
            } else {
                (2 * at + step) / (2 * step)
            };
            if nearest < n as i128 {
                proof {
                    if at > 0 {
                        lemma_div_pos_is_pos(2 * at + step, 2 * step);
                    }
                }
                Some(nearest as usize)
            } else {
                None
            }
        } else {
            None
        }
    }
}

proof fn playback_bounds(scaled: int, file_rate: int, rate: int, pause: int, n: int)
    requires
        -2_100_000_000_000_000_000_000_000_000 <= scaled <= 2_100_000_000_000_000_000_000_000_000,
        1 <= file_rate <= 20_000_000_000,
        1 <= rate <= 20_000_000_000,
        0 <= pause <= 100_000_000_000_000_000,
        1 <= n <= 1_000_000_000_000,
    ensures
        -42_000_000_000_000_000_000_000_000_000_000_000_000 <= scaled * file_rate
            <= 42_000_000_000_000_000_000_000_000_000_000_000_000,
        0 <= pause * file_rate <= 2_000_000_000_000_000_000_000_000_000,
        0 < n * 1_000_000_000_000 * rate <= 20_000_000_000_000_000_000_000_000_000_000_000,
        0 < (n * 1_000_000_000_000 + pause * file_rate) * rate
            <= 42_000_000_000_000_000_000_000_000_000_000_000_000,
{
    assert(-42_000_000_000_000_000_000_000_000_000_000_000_000 <= scaled * file_rate
        <= 42_000_000_000_000_000_000_000_000_000_000_000_000) by (nonlinear_arith)
        requires
            -2_100_000_000_000_000_000_000_000_000 <= scaled <= 2_100_000_000_000_000_000_000_000_000,
            1 <= file_rate <= 20_000_000_000,
    ;
    assert(0 <= pause * file_rate <= 2_000_000_000_000_000_000_000_000_000) by (nonlinear_arith)
        requires
            0 <= pause <= 100_000_000_000_000_000,
            1 <= file_rate <= 20_000_000_000,
    ;
    let span = n * 1_000_000_000_000;
    assert(0 < span * rate <= 20_000_000_000_000_000_000_000_000_000_000_000) by (nonlinear_arith)
        requires
            0 < span <= 1_000_000_000_000_000_000_000_000,
            1 <= rate <= 20_000_000_000,
    ;
    let whole = span + pause * file_rate;
    assert(0 < whole * rate <= 42_000_000_000_000_000_000_000_000_000_000_000_000)
        by (nonlinear_arith)
        requires
            0 < whole <= 2_100_000_000_000_000_000_000_000_000,
            1 <= rate <= 20_000_000_000,
    ;
}

/// Played at its own rate from time zero, a file comes out sample for sample.
pub proof fn playback_at_own_rate_is_identity(loader: IqFileLoader, n: int, clock: SampleClock, i: int)
    requires
        clock.wf(),
        loader.playable(),
        0 <= i < n <= FILE_LIMIT,
        clock.start_time_us == 0,
        clock.lead == 0,
        clock.sample_rate_mhz == loader.file_rate(),
    ensures
        loader.heard(n, clock, i) == Some(i),
{
    let rate = clock.sample_rate_mhz as int;
    let step = 1_000_000_000_000 * rate;
    let t = clock.scaled_time(i) * rate;
    assert(clock.scaled_time(i) == i * 1_000_000_000_000);
    assert(t == i * step) by (nonlinear_arith)
        requires
            t == (i * 1_000_000_000_000) * rate,
            step == 1_000_000_000_000 * rate,
    ;
    let duration = n * 1_000_000_000_000 * rate;
    assert(duration == n * step) by (nonlinear_arith)
        requires
            duration == n * 1_000_000_000_000 * rate,
            step == 1_000_000_000_000 * rate,
    ;
    assert(0 <= t < duration) by (nonlinear_arith)
        requires
            t == i * step,
            duration == n * step,
            0 <= i < n,
            step > 0,
    ;
    let cycle = (n * 1_000_000_000_000 + loader.pause() * rate) * rate;
    assert(cycle >= duration) by (nonlinear_arith)
        requires
            cycle == (n * 1_000_000_000_000 + loader.pause() * rate) * rate,
            duration == n * 1_000_000_000_000 * rate,
            loader.pause() >= 0,
            rate > 0,
    ;
    lemma_small_mod(t as nat, cycle as nat);
    assert(2 * t + step == (2 * step) * i + step) by (nonlinear_arith)
        requires
            t == i * step,
    ;
    lemma_fundamental_div_mod_converse(2 * t + step, 2 * step, i, step);
    assert(i > 0 ==> t > 0) by (nonlinear_arith)
        requires
            t == i * step,
            step > 0,
    ;
    assert(loader.file_rate() == rate);
    assert(clock.scaled_time(i) * loader.file_rate() == t);
    assert(signed_remainder(t, cycle) == t);
    assert(i > 0 ==> (2 * t + step) / (2 * step) == i);
}

/// A repeating file sounds the same one whole cycle later.
pub proof fn playback_repeats_every_cycle(
    loader: IqFileLoader,
    n: int,
    clock: SampleClock,
    i: int,
    later: SampleClock,
    j: int,
)
    requires
        clock.wf(),
        later.wf(),
        loader.playable(),
        0 < n <= FILE_LIMIT,
        loader.repeat,
        later.sample_rate_mhz == clock.sample_rate_mhz,
        0 <= clock.scaled_time(i),
        later.scaled_time(j) * loader.file_rate() == clock.scaled_time(i) * loader.file_rate() + (n
            * 1_000_000_000_000 + loader.pause() * loader.file_rate()) * clock.sample_rate_mhz,
    ensures
        loader.heard(n, later, j) == loader.heard(n, clock, i),
{
    let rate = clock.sample_rate_mhz as int;
    let t = clock.scaled_time(i) * loader.file_rate();
    let cycle = (n * 1_000_000_000_000 + loader.pause() * loader.file_rate()) * rate;
    playback_bounds(0, loader.file_rate(), rate, 0, n);
    assert(t >= 0) by (nonlinear_arith)
        requires
            t == clock.scaled_time(i) * loader.file_rate(),
            clock.scaled_time(i) >= 0,
            loader.file_rate() >= 1,
    ;
    assert(0 <= loader.pause() * loader.file_rate()) by (nonlinear_arith)
        requires
            loader.pause() >= 0,
            loader.file_rate() >= 1,
    ;
    assert(cycle > 0) by (nonlinear_arith)
        requires
            cycle == (n * 1_000_000_000_000 + loader.pause() * loader.file_rate()) * rate,
            0 <= loader.pause() * loader.file_rate(),
            n > 0,
            rate > 0,
    ;
    lemma_mod_add_multiples_vanish(t, cycle);
}

// ---------------------------------------------------------------------------
// Sources
// ---------------------------------------------------------------------------

/// Unified signal source: either a generator or a file.
#[derive(Clone, Debug)]
pub enum SignalSource {
    Generator(SignalGenerator),
    File(IqFileLoader),
}

impl Default for SignalSource {
    fn default() -> (source: Self)
        ensures
            source matches SignalSource::Generator(generator) && generator.tones@ == seq![
                fresh_tone(),
            ] && generator.noise_floor_dbfs == -80_000_000 && generator.noise_enabled,
    {
        SignalSource::Generator(SignalGenerator::default())
    }
}

impl SignalSource {
    /// The rate of the source in MHz: 10 GHz for a generator, the recorded rate for a file.
    pub fn sample_rate_mhz(&self) -> (rate: Micro)
        ensures
            rate == match self {
                SignalSource::Generator(_) => 10_000_000_000,
                SignalSource::File(loader) => loader.sample_rate_mhz,
            },
    {
        match self {
            SignalSource::Generator(_) => 10_000_000_000,
            SignalSource::File(loader) => loader.sample_rate_mhz,
        }
    }
}

// ---------------------------------------------------------------------------
// What a file means
// ---------------------------------------------------------------------------

/// Two hundred and fifty-six to the power of `n`.
pub open spec fn byte_power(n: nat) -> int
    decreases n,
{
    if n == 0 {
        1
    } else {
        256 * byte_power((n - 1) as nat)
    }
}

/// The first byte of a number counts least: a byte alone is itself, no bytes are zero, and bytes
/// after others count as much more as the others can hold. So every number has one writing.
pub proof fn first_bytes_count_least(low: Seq<u8>, high: Seq<u8>)
    ensures
        little_endian(low + high) == little_endian(low) + byte_power(low.len()) * little_endian(
            high,
        ),
        0 <= little_endian(low) < byte_power(low.len()),
        low.len() == 1 ==> little_endian(low) == low[0],
        low.len() == 0 ==> little_endian(low) == 0,
    decreases low.len(),
{
    let whole = low + high;
    if low.len() == 0 {
        assert(whole =~= high);
    } else {
        let rest = low.drop_first();
        first_bytes_count_least(rest, high);
        assert(whole.drop_first() =~= rest + high);
        assert(whole[0] == low[0]);
        let (p, h) = (byte_power(rest.len()), little_endian(high));
        assert(256 * (p * h) == (256 * p) * h) by (nonlinear_arith);
        if low.len() == 1 {
            assert(little_endian(rest) == 0);
        }
    }
}

/// A word read as a signed number keeps its bits: it is the word, or the word less 65536, whichever
/// a signed word can hold.
pub proof fn signed_words_keep_their_bits(word: int)
    requires
        0 <= word < 0x1_0000,
    ensures
        -0x8000 <= two_complement16(word) < 0x8000,
        (two_complement16(word) - word) % 0x1_0000 == 0,
{
}

/// A sample is read out of its own bytes, and the same bytes read the same wherever they stand. Its
/// I comes first and its Q after it, each as wide as the format says; changing their places changes
/// the places of I and Q.
pub proof fn samples_are_read_from_their_own_bytes(
    format: IqFormat,
    data: Seq<u8>,
    swapped: Seq<u8>,
    k: int,
)
    requires
        format != IqFormat::Csv,
        0 <= k,
        2 * format.width() * (k + 1) <= data.len(),
        ({
            let (w, own) = (
                format.width(),
                data.subrange(2 * format.width() * k, 2 * format.width() * (k + 1)),
            );
            swapped == own.skip(w) + own.take(w)
        }),
    ensures
        ({
            let own = data.subrange(2 * format.width() * k, 2 * format.width() * (k + 1));
            &&& own.len() == 2 * format.width()
            &&& binary_sample(format, own, 0) == binary_sample(format, data, k)
            &&& match binary_sample(format, data, k) {
                RawIq::F32(i, _) => i == little_endian(own.take(4)),
                RawIq::F64(i, _) => i == little_endian(own.take(8)),
                RawIq::I16(i, _) => (i - little_endian(own.take(2))) % 0x1_0000 == 0,
            }
            &&& match (binary_sample(format, data, k), binary_sample(format, swapped, 0)) {
                (RawIq::F32(i, q), RawIq::F32(a, b)) => i == b && q == a && format
                    == IqFormat::BinaryF32 && format.width() == 4,
                (RawIq::F64(i, q), RawIq::F64(a, b)) => i == b && q == a && format
                    == IqFormat::BinaryF64 && format.width() == 8,
                (RawIq::I16(i, q), RawIq::I16(a, b)) => i == b && q == a && format
                    == IqFormat::Sc16 && format.width() == 2,
                _ => false,
            }
        }),
{
    let w = format.width();
    let start = 2 * w * k;
    assert(2 * w * (k + 1) == start + 2 * w) by (nonlinear_arith)
        requires
            start == 2 * w * k,
    ;
    assert(0 <= start) by (nonlinear_arith)
        requires
            start == 2 * w * k,
            w >= 0,
            k >= 0,
    ;
    let own = data.subrange(start, start + 2 * w);
    assert(2 * w * 0 == 0 && 2 * w * (0 + 1) == 2 * w) by (nonlinear_arith);
    assert(own.subrange(0, w) =~= data.subrange(start, start + w));
    assert(own.take(w) =~= own.subrange(0, w));
    first_bytes_count_least(own.take(w), Seq::empty());
    assert(byte_power(1) == 0x100 && byte_power(2) == 0x1_0000) by {
        reveal_with_fuel(byte_power, 3);
    }
    assert(byte_power(4) == 0x1_0000_0000 && byte_power(8) == 0x1_0000_0000_0000_0000) by {
        reveal_with_fuel(byte_power, 9);
    }
    assert(own.subrange(w, 2 * w) =~= data.subrange(start + w, start + 2 * w));
    assert(swapped.subrange(0, w) =~= own.subrange(w, 2 * w));
    assert(swapped.subrange(w, 2 * w) =~= own.subrange(0, w));
}

/// Every line that is neither blank nor a comment is a row, and no other line is: the rows carry
/// the numbers of those lines, counted from one, in rising order, and what stands before and after
/// the first comma without the white space around it.
pub proof fn every_written_line_is_a_row(lines: Seq<Seq<char>>, n: int, k: int)
    requires
        0 <= n <= lines.len(),
    ensures
        0 <= k < n && !skipped_line(lines[k]) ==> exists|r: int|
            0 <= r < rows_before(lines, n).len() && (#[trigger] rows_before(lines, n)[r]).0 == k + 1,
        0 <= k < rows_before(lines, n).len() ==> ({
            let row = rows_before(lines, n)[k];
            &&& 1 <= row.0 <= n
            &&& !skipped_line(lines[row.0 - 1])
            &&& row.1 == trimmed(pieces(trimmed(lines[row.0 - 1]), ',')[0])
            &&& row.2 == trimmed(pieces(trimmed(lines[row.0 - 1]), ',')[1])
            &&& k > 0 ==> rows_before(lines, n)[k - 1].0 < row.0
        }),
    decreases n,
{
    if n > 0 {
        every_written_line_is_a_row(lines, n - 1, k);
        let before = rows_before(lines, n - 1);
        let rows = rows_before(lines, n);
        if 0 <= k < n && !skipped_line(lines[k]) {
            if k < n - 1 {
                let r = choose|r: int| 0 <= r < before.len() && (#[trigger] before[r]).0 == k + 1;
                assert(rows[r] == before[r]);
            } else {
                assert(rows[before.len() as int].0 == k + 1);
            }
        }
        if 0 < k && k == before.len() && k < rows.len() {
            every_written_line_is_a_row(lines, n - 1, k - 1);
            assert(rows[k - 1] == before[k - 1]);
        }
    }
}

/// A line is left out exactly if it holds nothing but white space or starts, after any, with a
/// number sign.
pub proof fn blank_lines_and_comments_are_left_out(line: Seq<char>)
    ensures
        trimmed(line).len() == 0 ==> skipped_line(line),
        trimmed(line).len() > 0 ==> (skipped_line(line) <==> trimmed(line)[0] == '#'),
        broken_line(line) ==> !trimmed(line).contains(','),
        !skipped_line(line) && !trimmed(line).contains(',') ==> broken_line(line),
{
    let body = trimmed(line);
    crate::text::pieces_join_to_the_text(body, ',');
    crate::text::pieces_nonempty(body, ',');
    let parts = pieces(body, ',');
    if parts.len() == 1 {
        assert(crate::text::joined(parts, ',') == parts[0]);
        assert(!parts[0].contains(','));
    }
    if !body.contains(',') {
        crate::text::a_text_without_separators_is_one_piece(body, ',');
    }
}

/// Without repeating, the sample heard is the one nearest to the instant, of two equally near the
/// later; before time zero it is the first, and nothing is heard once the file is over.
pub proof fn the_nearest_sample_is_heard(
    loader: IqFileLoader,
    n: int,
    clock: SampleClock,
    i: int,
)
    requires
        clock.wf(),
        !loader.repeat,
        0 < n,
    ensures
        ({
            let step = 1_000_000_000_000 * clock.sample_rate_mhz;
            let at = clock.scaled_time(i) * loader.file_rate();
            let heard = loader.heard(n, clock, i);
            &&& at <= 0 ==> heard == Some(0int)
            &&& at > 0 && heard is Some ==> (2 * heard->0 - 1) * step <= 2 * at < (2 * heard->0 + 1)
                * step
            &&& heard is Some ==> 0 <= heard->0 < n
            &&& heard is None ==> 2 * at >= (2 * n - 1) * step
            &&& at >= n * step ==> heard is None
        }),
{
    let rate = clock.sample_rate_mhz as int;
    let step = 1_000_000_000_000 * rate;
    let at = clock.scaled_time(i) * loader.file_rate();
    let duration = n * 1_000_000_000_000 * rate;
    assert(duration == n * step) by (nonlinear_arith)
        requires
            duration == n * 1_000_000_000_000 * rate,
            step == 1_000_000_000_000 * rate,
    ;
    assert(n * step > 0) by (nonlinear_arith)
        requires
            n > 0,
            step > 0,
    ;
    assert((2 * n - 1) * step == 2 * (n * step) - step) by (nonlinear_arith);
    if at > 0 {
        let x = 2 * at + step;
        let k = x / (2 * step);
        lemma_fundamental_div_mod(x, 2 * step);
        lemma_mod_bound(x, 2 * step);
        lemma_div_pos_is_pos(x, 2 * step);
        assert((2 * step) * k == 2 * (k * step)) by (nonlinear_arith);
        assert((2 * k - 1) * step == 2 * (k * step) - step) by (nonlinear_arith);
        assert((2 * k + 1) * step == 2 * (k * step) + step) by (nonlinear_arith);
        if k >= n {
            assert(k * step >= n * step) by (nonlinear_arith)
                requires
                    k >= n,
                    step > 0,
            ;
        }
    }
}

/// A repeating file is silent in the pause after it and heard from the start once the pause is
/// over: within its first cycle it sounds as it does without repeating.
pub proof fn repeating_adds_a_pause(
    loader: IqFileLoader,
    once: IqFileLoader,
    n: int,
    clock: SampleClock,
    i: int,
)
    requires
        clock.wf(),
        loader.repeat,
        !once.repeat,
        once.sample_rate_mhz == loader.sample_rate_mhz,
        0 < n,
        0 <= clock.scaled_time(i) * loader.file_rate() < (n * 1_000_000_000_000 + loader.pause()
            * loader.file_rate()) * clock.sample_rate_mhz,
    ensures
        loader.heard(n, clock, i) == once.heard(n, clock, i),
        loader.pause() >= 0,
        loader.repeat_period_us >= 0 ==> loader.pause() == loader.repeat_period_us,
        loader.file_rate() >= 1,
        loader.sample_rate_mhz >= 1 ==> loader.file_rate() == loader.sample_rate_mhz,
{
    let t = clock.scaled_time(i) * loader.file_rate();
    let cycle = (n * 1_000_000_000_000 + loader.pause() * loader.file_rate())
        * clock.sample_rate_mhz;
    lemma_small_mod(t as nat, cycle as nat);
}

} // verus!
