//! Reading Betaflight / INAV blackbox flight logs into flat, row-major
//! frame streams.
//!
//! `parse_blackbox` takes the raw bytes of a `.bbl` / `.bfl` / `.txt` file
//! and returns the first log in it as a `FlightLog`: header strings, and for
//! each of the main, slow and GPS frame kinds the field names, signedness
//! flags and unit labels, a time stamp per kept frame, and the frames'
//! samples in row-major order. Field `j` of row `i` is `frames[i * cols + j]`.

pub mod decoder;
pub mod fields;
pub mod flight_log;
pub mod laws;
pub mod parse;
pub mod samples;

pub use fields::{unit_label, unpack_fields, FieldInfo, FieldUnit};
pub use flight_log::{FlightLog, FrameStream};
pub use parse::{parse_blackbox, read_log, ParseFailure};
pub use samples::{push_raw_values, widen_raw, FrameEvent, FrameRecorder, Series};
