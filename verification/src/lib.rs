//! The verified core of an RFSoC front-end simulator.
//!
//! The crate holds the discrete side of the simulator: the converter configuration and its
//! frequency plan, the RF node graph and the order its stages are evaluated in, transform and
//! decimation sizing, pseudo-random streams, file grammars, peak picking and display buffers.
//! Sample arithmetic is left to the caller; wherever it matters here it comes in as a closure.

pub mod adc;
pub mod budget;
pub mod calibration;
pub mod capture;
pub mod chain;
pub mod clock;
pub mod components;
pub mod decimation;
pub mod display;
pub mod evaluation;
pub mod file_path;
pub mod graph;
pub mod hops;
pub mod iq_file;
pub mod modulation;
pub mod names;
pub mod nodes;
pub mod noise;
pub mod presets;
pub mod rfdc;
pub mod rounding;
pub mod scratch;
pub mod session;
pub mod signal;
pub mod sim;
pub mod smooth;
pub mod spectrum;
pub mod summary;
pub mod text;
pub mod theme;
pub mod touchstone;
pub mod transform;
pub mod units;
pub mod waterfall;
pub mod wiring;
