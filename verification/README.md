# rfsoc_sim

A simulator of the receive side of a Zynq UltraScale+ RFSoC (ZU48DR on a ZCU208): an RF front
end drawn as a node graph, eight converter blocks in four tiles, and the down-converter behind
each of them.

The library under `src/` holds the logic and is verified with Verus. The program under `app/`
puts floating-point sample arithmetic, files and the user interface around it.

## How quantities are held

- Settings are whole millionths of the unit their name carries (`units::Micro`): `frequency_mhz`
  counts hertz, `sample_rate_gsps` counts kilosamples per second, times in microseconds count
  picoseconds. What is divided stays an exact quotient (`units::Ratio`).
- Levels of a trace are the bit patterns of double-precision numbers (`display::Level`), ordered
  exactly as the numbers are.
- Sample arithmetic enters the library only as functions handed to it. The library fixes the
  stages of a capture, their order and their lengths; in the generator, the resampler, the
  digitiser, the decimators and the spectra it also fixes which samples meet, in what order and
  how often. The caller adds and multiplies them.

## Modules

| Module | What it states |
| --- | --- |
| `rfdc`, `presets` | Converter configuration, Nyquist zones, tuning, clock rules, presets |
| `signal`, `summary` | Tones, where each of them stands at each sample of a frame, occupied bandwidth |
| `clock` | The sampling clock: turns, repetitions and counts at a sample |
| `rounding` | How far sums of tones stray when every addition rounds |
| `noise`, `hops` | Noise streams, hop and symbol sequences, how soon a hop grid is covered |
| `iq_file`, `file_path`, `touchstone`, `text` | Recorded IQ files and their playback, when two paths are the same, Touchstone files, text splitting |
| `nodes`, `components` | Front-end nodes and the tables and figures behind them |
| `graph`, `wiring`, `chain`, `evaluation` | The node graph, how it is wired, and the plan by which a chain is evaluated |
| `budget` | How gain, noise and intercept points add up along a chain |
| `capture`, `adc`, `decimation` | The plan of a capture and its stages, converter imperfections, the decimation cascade |
| `smooth`, `spectrum`, `transform`, `scratch` | Transform lengths, spectra, parallel transforms, working buffers |
| `display`, `waterfall`, `theme` | Peaks, the waterfall, colours |
| `sim`, `session` | Simulated time, annotations, and what each user action leads to |

Laws that relate several functions are public proof functions beside the functions they speak of.

## What is taken on trust

- `wiring`: what the `egui_snarl` graph container does when it is read and rewired.
- `text`: `char::is_whitespace`, `str::to_uppercase`, `String::push`.
- `iq_file`: `String::from_utf8`.
- `scratch`: `Vec::capacity`.

Each is stated next to the call it speaks of.
