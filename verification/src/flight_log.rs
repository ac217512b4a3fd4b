//! A decoded flight log: header strings, and for each of the main, slow and
//! GPS streams its field metadata, its time stamps and its samples in
//! row-major order (field `j` of row `i` is `frames[i * cols + j]`).

use vstd::prelude::*;

use crate::fields::texts;

verus! {

/// One frame stream of a flight log.
pub struct FrameStream {
    field_names: Vec<String>,
    field_signed: Vec<u8>,
    field_units: Vec<String>,
    cols: usize,
    times: Vec<u64>,
    frames: Vec<Option<i64>>,
}

/// The mathematical value of a [`FrameStream`].
#[verifier::ext_equal]
pub struct StreamView {
    pub names: Seq<Seq<char>>,
    pub signed: Seq<u8>,
    pub units: Seq<Seq<char>>,
    pub cols: nat,
    pub times: Seq<u64>,
    pub frames: Seq<Option<i64>>,
}

impl View for FrameStream {
    type V = StreamView;

    closed spec fn view(&self) -> StreamView {
        StreamView {
            names: texts(self.field_names@),
            signed: self.field_signed@,
            units: texts(self.field_units@),
            cols: self.cols as nat,
            times: self.times@,
            frames: self.frames@,
        }
    }
}

impl StreamView {
    /// The metadata arrays all have one entry per column, and the samples
    /// form whole rows: one row of `cols` samples per time stamp.
    pub open spec fn well_formed(self) -> bool {
        &&& self.names.len() == self.cols
        &&& self.signed.len() == self.cols
        &&& self.units.len() == self.cols
        &&& self.frames.len() == self.times.len() * self.cols
    }

    /// Whether the stream holds nothing at all.
    pub open spec fn is_empty(self) -> bool {
        &&& self.names.len() == 0
        &&& self.signed.len() == 0
        &&& self.units.len() == 0
        &&& self.cols == 0
        &&& self.times.len() == 0
        &&& self.frames.len() == 0
    }
}

impl FrameStream {
    /// A stream with the given field metadata and samples; its column count
    /// is the number of field names.
    pub fn new(
        field_names: Vec<String>,
        field_signed: Vec<u8>,
        field_units: Vec<String>,
        times: Vec<u64>,
        frames: Vec<Option<i64>>,
    ) -> (stream: FrameStream)
        ensures
            stream@ == (StreamView {
                names: texts(field_names@),
                signed: field_signed@,
                units: texts(field_units@),
                cols: field_names@.len(),
                times: times@,
                frames: frames@,
            }),
    {
        let cols = field_names.len();
        FrameStream { field_names, field_signed, field_units, cols, times, frames }
    }
}

/// A decoded flight log.
pub struct FlightLog {
    firmware: String,
    craft_name: String,
    board_info: String,
    has_gps: bool,
    main: FrameStream,
    slow: FrameStream,
    gps: FrameStream,
}

/// The mathematical value of a [`FlightLog`].
pub struct FlightLogView {
    pub firmware: Seq<char>,
    pub craft_name: Seq<char>,
    pub board_info: Seq<char>,
    pub has_gps: bool,
    pub main: StreamView,
    pub slow: StreamView,
    pub gps: StreamView,
}

impl View for FlightLog {
    type V = FlightLogView;

    closed spec fn view(&self) -> FlightLogView {
        FlightLogView {
            firmware: self.firmware@,
            craft_name: self.craft_name@,
            board_info: self.board_info@,
            has_gps: self.has_gps,
            main: self.main@,
            slow: self.slow@,
            gps: self.gps@,
        }
    }
}

impl FlightLogView {
    /// Every stream is well formed, and the GPS stream is empty when the log
    /// has no GPS frames.
    pub open spec fn well_formed(self) -> bool {
        &&& self.main.well_formed()
        &&& self.slow.well_formed()
        &&& self.gps.well_formed()
        &&& !self.has_gps ==> self.gps.is_empty()
    }
}

/// A copy of a list of strings.
fn copy_texts(v: &Vec<String>) -> (copy: Vec<String>)
    ensures
        texts(copy@) == texts(v@),
{
    let copy = v.clone();
    assert(texts(copy@) =~= texts(v@)) by {
        assert forall|i: int| 0 <= i < v.len() implies copy@[i] == v@[i] by {
            assert(cloned::<String>(v[i], copy[i]));
        }
    }
    copy
}

/// A copy of a list of plain values.
fn copy_values<T: Copy>(v: &Vec<T>) -> (copy: Vec<T>)
    ensures
        copy@ == v@,
{
    let mut copy: Vec<T> = Vec::new();
    for i in 0..v.len()
        invariant
            copy@ == v@.take(i as int),
    {
        copy.push(v[i]);
        assert(copy@ =~= v@.take(i + 1));
    }
    assert(v@.take(v.len() as int) =~= v@);
    copy
}

impl FlightLog {
    /// A log with the given header strings and streams.
    pub fn new(
        firmware: String,
        craft_name: String,
        board_info: String,
        has_gps: bool,
        main: FrameStream,
        slow: FrameStream,
        gps: FrameStream,
    ) -> (log: FlightLog)
        ensures
            log@ == (FlightLogView {
                firmware: firmware@,
                craft_name: craft_name@,
                board_info: board_info@,
                has_gps,
                main: main@,
                slow: slow@,
                gps: gps@,
            }),
    {
        FlightLog { firmware, craft_name, board_info, has_gps, main, slow, gps }
    }

    /// The firmware that wrote the log, as its debug text.
    pub fn firmware(&self) -> (text: String)
        ensures
            text@ == self@.firmware,
    {
        self.firmware.clone()
    }

    /// The craft name; empty when the log has none.
    pub fn craft_name(&self) -> (text: String)
        ensures
            text@ == self@.craft_name,
    {
        self.craft_name.clone()
    }

    /// The board information; empty when the log has none.
    pub fn board_info(&self) -> (text: String)
        ensures
            text@ == self@.board_info,
    {
        self.board_info.clone()
    }

    /// Whether the log defines GPS frames.
    pub fn has_gps(&self) -> (present: bool)
        ensures
            present == self@.has_gps,
    {
        self.has_gps
    }

    /// The names of the main frame fields.
    pub fn main_field_names(&self) -> (names: Vec<String>)
        ensures
            texts(names@) == self@.main.names,
    {
        copy_texts(&self.main.field_names)
    }

    /// The signedness of the main frame fields: 1 signed, 0 unsigned.
    pub fn main_field_signed(&self) -> (signed: Vec<u8>)
        ensures
            signed@ == self@.main.signed,
    {
        copy_values(&self.main.field_signed)
    }

    /// The unit labels of the main frame fields.
    pub fn main_field_units(&self) -> (units: Vec<String>)
        ensures
            texts(units@) == self@.main.units,
    {
        copy_texts(&self.main.field_units)
    }

    /// The number of main frame fields.
    pub fn main_cols(&self) -> (cols: usize)
        ensures
            cols == self@.main.cols,
    {
        self.main.cols
    }

    /// The time stamp of each kept main frame, in microseconds.
    pub fn main_times(&self) -> (times: Vec<u64>)
        ensures
            times@ == self@.main.times,
    {
        copy_values(&self.main.times)
    }

    /// The kept main frames' samples, row-major.
    pub fn main_frames(&self) -> (frames: Vec<Option<i64>>)
        ensures
            frames@ == self@.main.frames,
    {
        copy_values(&self.main.frames)
    }

    /// The names of the slow frame fields.
    pub fn slow_field_names(&self) -> (names: Vec<String>)
        ensures
            texts(names@) == self@.slow.names,
    {
        copy_texts(&self.slow.field_names)
    }

    /// The signedness of the slow frame fields: 1 signed, 0 unsigned.
    pub fn slow_field_signed(&self) -> (signed: Vec<u8>)
        ensures
            signed@ == self@.slow.signed,
    {
        copy_values(&self.slow.field_signed)
    }

    /// The unit labels of the slow frame fields.
    pub fn slow_field_units(&self) -> (units: Vec<String>)
        ensures
            texts(units@) == self@.slow.units,
    {
        copy_texts(&self.slow.field_units)
    }

    /// The number of slow frame fields.
    pub fn slow_cols(&self) -> (cols: usize)
        ensures
            cols == self@.slow.cols,
    {
        self.slow.cols
    }

    /// The time stamp of each slow frame: that of the latest main frame
    /// before it, in microseconds.
    pub fn slow_times(&self) -> (times: Vec<u64>)
        ensures
            times@ == self@.slow.times,
    {
        copy_values(&self.slow.times)
    }

    /// The slow frames' samples, row-major.
    pub fn slow_frames(&self) -> (frames: Vec<Option<i64>>)
        ensures
            frames@ == self@.slow.frames,
    {
        copy_values(&self.slow.frames)
    }

    /// The names of the GPS frame fields; empty without GPS.
    pub fn gps_field_names(&self) -> (names: Vec<String>)
        ensures
            texts(names@) == self@.gps.names,
    {
        copy_texts(&self.gps.field_names)
    }

    /// The signedness of the GPS frame fields: 1 signed, 0 unsigned.
    pub fn gps_field_signed(&self) -> (signed: Vec<u8>)
        ensures
            signed@ == self@.gps.signed,
    {
        copy_values(&self.gps.field_signed)
    }

    /// The unit labels of the GPS frame fields.
    pub fn gps_field_units(&self) -> (units: Vec<String>)
        ensures
            texts(units@) == self@.gps.units,
    {
        copy_texts(&self.gps.field_units)
    }

    /// The number of GPS frame fields.
    pub fn gps_cols(&self) -> (cols: usize)
        ensures
            cols == self@.gps.cols,
    {
        self.gps.cols
    }

    /// The time stamp of each GPS frame: that of the latest main frame
    /// before it, in microseconds.
    pub fn gps_times(&self) -> (times: Vec<u64>)
        ensures
            times@ == self@.gps.times,
    {
        copy_values(&self.gps.times)
    }

    /// The GPS frames' samples, row-major.
    pub fn gps_frames(&self) -> (frames: Vec<Option<i64>>)
        ensures
            frames@ == self@.gps.frames,
    {
        copy_values(&self.gps.frames)
    }
}

} // verus!
