//! Turning decoded frames into flat, row-major sample buffers: the
//! signed/unsigned reinterpretation of raw values, main frame down-sampling,
//! and the time stamps given to slow and GPS frames.

use vstd::prelude::*;

verus! {

/// A raw 32-bit field value read as the field's type: signed fields as a
/// two's-complement `i32`, unsigned fields as a `u32`.
pub open spec fn widen(raw: u32, signed: bool) -> i64 {
    if signed {
        raw as i32 as i64
    } else {
        raw as i64
    }
}

/// Reading a raw value as its field's type: an unsigned field keeps the raw
/// value; a signed field reads it in two's complement, so a raw value below
/// `2^31` stays as it is and one at or above it stands for that value less
/// `2^32`.
pub proof fn law_widen_twos_complement(raw: u32, signed: bool)
    ensures
        !signed ==> widen(raw, signed) == raw,
        signed && raw < 0x8000_0000 ==> widen(raw, signed) == raw,
        signed && raw >= 0x8000_0000 ==> widen(raw, signed) == raw - 0x1_0000_0000,
{
    assert(raw < 0x8000_0000u32 ==> raw as i32 as i64 == raw as i64) by (bit_vector);
    assert(raw >= 0x8000_0000u32 ==> raw as i32 as i64 == raw as i64 - 0x1_0000_0000i64)
        by (bit_vector);
}

/// The signedness of column `i`; columns past the end of `flags` are unsigned.
pub open spec fn flag_at(flags: Seq<bool>, i: int) -> bool {
    0 <= i < flags.len() && flags[i]
}

/// A raw sample read as its field's type; a missing sample stays missing.
pub open spec fn widen_sample(raw: Option<u32>, signed: bool) -> Option<i64> {
    match raw {
        Some(value) => Some(widen(value, signed)),
        None => None,
    }
}

/// A row of raw samples read column by column with the signedness `flags`.
pub open spec fn widen_row(row: Seq<Option<u32>>, flags: Seq<bool>) -> Seq<Option<i64>> {
    Seq::new(row.len(), |i: int| widen_sample(row[i], flag_at(flags, i)))
}

/// Reads a raw value as its field's type.
pub fn widen_raw(raw: u32, signed: bool) -> (value: i64)
    ensures
        value == widen(raw, signed),
        value == (if signed && raw >= 0x8000_0000 {
            raw - 0x1_0000_0000
        } else {
            raw as int
        }),
{
    proof {
        law_widen_twos_complement(raw, signed);
    }
    if signed {
        raw as i32 as i64
    } else {
        raw as i64
    }
}

/// Appends one row of raw samples to the flat buffer `out`, each read with
/// the signedness of its column; columns without a flag are unsigned, and a
/// missing sample is appended as missing.
pub fn push_raw_values(row: &Vec<Option<u32>>, signed: &Vec<bool>, out: &mut Vec<Option<i64>>)
    ensures
        final(out)@ == old(out)@ + widen_row(row@, signed@),
{
    let ghost start = old(out)@;
    for i in 0..row.len()
        invariant
            out@ == start + widen_row(row@, signed@).take(i as int),
    {
        let flag = if i < signed.len() {
            signed[i]
        } else {
            false
        };
        let value = match row[i] {
            Some(raw) => Some(widen_raw(raw, flag)),
            None => None,
        };
        out.push(value);
        assert(widen_row(row@, signed@).take(i + 1) =~= widen_row(row@, signed@).take(
            i as int,
        ).push(value));
    }
    assert(widen_row(row@, signed@).take(row.len() as int) =~= widen_row(row@, signed@));
}

/// One decoded item of a log's data section, with its field values as raw
/// samples (`None` for a value the frame does not hold).
pub enum FrameEvent {
    Main { time: u64, values: Vec<Option<u32>> },
    Slow { values: Vec<Option<u32>> },
    Gps { values: Vec<Option<u32>> },
    Other,
}

/// The mathematical value of a [`FrameEvent`].
pub enum FrameEventView {
    Main { time: u64, values: Seq<Option<u32>> },
    Slow { values: Seq<Option<u32>> },
    Gps { values: Seq<Option<u32>> },
    Other,
}

impl View for FrameEvent {
    type V = FrameEventView;

    open spec fn view(&self) -> FrameEventView {
        match self {
            FrameEvent::Main { time, values } => FrameEventView::Main { time: *time, values: values@ },
            FrameEvent::Slow { values } => FrameEventView::Slow { values: values@ },
            FrameEvent::Gps { values } => FrameEventView::Gps { values: values@ },
            FrameEvent::Other => FrameEventView::Other,
        }
    }
}

/// One stream of samples: a time stamp per row, and the rows' values
/// concatenated in row-major order.
pub struct Series {
    pub times: Vec<u64>,
    pub values: Vec<Option<i64>>,
}

/// The mathematical value of a [`Series`].
pub struct SeriesView {
    pub times: Seq<u64>,
    pub values: Seq<Option<i64>>,
}

impl View for Series {
    type V = SeriesView;

    open spec fn view(&self) -> SeriesView {
        SeriesView { times: self.times@, values: self.values@ }
    }
}

/// The empty series.
pub open spec fn empty_series() -> SeriesView {
    SeriesView { times: Seq::empty(), values: Seq::empty() }
}

/// `series` with one more row: its time stamp, and its samples read with
/// the signedness `flags`.
pub open spec fn append_row(
    series: SeriesView,
    time: u64,
    row: Seq<Option<u32>>,
    flags: Seq<bool>,
) -> SeriesView {
    SeriesView { times: series.times.push(time), values: series.values + widen_row(row, flags) }
}

/// The state of a [`FrameRecorder`]: the effective stride, the number of main
/// frames seen, the time stamp of the latest main frame (0 before the first),
/// whether GPS frames are kept, the signedness of each stream's columns, and
/// the three sample streams.
pub struct RecorderView {
    pub stride: nat,
    pub main_seen: nat,
    pub last_time: u64,
    pub keep_gps: bool,
    pub main_signed: Seq<bool>,
    pub slow_signed: Seq<bool>,
    pub gps_signed: Seq<bool>,
    pub main: SeriesView,
    pub slow: SeriesView,
    pub gps: SeriesView,
}

/// The stride a requested stride stands for: 0 keeps every frame, like 1.
pub open spec fn effective_stride(main_stride: u32) -> nat {
    if main_stride == 0 {
        1
    } else {
        main_stride as nat
    }
}

/// A recorder that has seen nothing yet.
pub open spec fn fresh_recorder(
    main_stride: u32,
    main_signed: Seq<bool>,
    slow_signed: Seq<bool>,
    gps_signed: Seq<bool>,
    keep_gps: bool,
) -> RecorderView {
    RecorderView {
        stride: effective_stride(main_stride),
        main_seen: 0,
        last_time: 0,
        keep_gps,
        main_signed,
        slow_signed,
        gps_signed,
        main: empty_series(),
        slow: empty_series(),
        gps: empty_series(),
    }
}

/// What recording one item does. A main frame is counted and its time stamp
/// remembered, and its row is kept when the count before it is a multiple of
/// the stride. A slow frame's row is kept with the latest main time stamp; so
/// is a GPS frame's, when GPS frames are kept. Other items change nothing.
pub open spec fn step(r: RecorderView, event: FrameEventView) -> RecorderView {
    match event {
        FrameEventView::Main { time, values } => RecorderView {
            stride: r.stride,
            main_seen: r.main_seen + 1,
            last_time: time,
            keep_gps: r.keep_gps,
            main_signed: r.main_signed,
            slow_signed: r.slow_signed,
            gps_signed: r.gps_signed,
            main: if r.main_seen % r.stride == 0 {
                append_row(r.main, time, values, r.main_signed)
            } else {
                r.main
            },
            slow: r.slow,
            gps: r.gps,
        },
        FrameEventView::Slow { values } => RecorderView {
            slow: append_row(r.slow, r.last_time, values, r.slow_signed),
            ..r
        },
        FrameEventView::Gps { values } => if r.keep_gps {
            RecorderView { gps: append_row(r.gps, r.last_time, values, r.gps_signed), ..r }
        } else {
            r
        },
        FrameEventView::Other => r,
    }
}

/// The state after recording `events` in order, starting from `r`.
pub open spec fn replay(r: RecorderView, events: Seq<FrameEventView>) -> RecorderView
    decreases events.len(),
{
    if events.len() == 0 {
        r
    } else {
        step(replay(r, events.drop_last()), events.last())
    }
}

/// A main frame stride of at least 1.
struct Stride {
    value: u64,
}

impl Stride {
    #[verifier::type_invariant]
    spec fn positive(self) -> bool {
        self.value >= 1
    }
}

/// Collects the frames of a log's data section into three sample streams.
pub struct FrameRecorder {
    stride: Stride,
    main_seen: u64,
    last_time: u64,
    keep_gps: bool,
    main_signed: Vec<bool>,
    slow_signed: Vec<bool>,
    gps_signed: Vec<bool>,
    main: Series,
    slow: Series,
    gps: Series,
}

impl View for FrameRecorder {
    type V = RecorderView;

    closed spec fn view(&self) -> RecorderView {
        RecorderView {
            stride: self.stride.value as nat,
            main_seen: self.main_seen as nat,
            last_time: self.last_time,
            keep_gps: self.keep_gps,
            main_signed: self.main_signed@,
            slow_signed: self.slow_signed@,
            gps_signed: self.gps_signed@,
            main: self.main@,
            slow: self.slow@,
            gps: self.gps@,
        }
    }
}

impl FrameRecorder {
    /// A recorder that keeps every `main_stride`-th main frame (every one
    /// for 0 or 1), reads each stream's columns with the given signedness,
    /// and keeps GPS frames only when `keep_gps` holds.
    pub fn new(
        main_stride: u32,
        main_signed: Vec<bool>,
        slow_signed: Vec<bool>,
        gps_signed: Vec<bool>,
        keep_gps: bool,
    ) -> (recorder: Self)
        ensures
            recorder@ == fresh_recorder(
                main_stride,
                main_signed@,
                slow_signed@,
                gps_signed@,
                keep_gps,
            ),
    {
        let stride: u64 = if main_stride == 0 {
            1
        } else {
            main_stride as u64
        };
        let recorder = FrameRecorder {
            stride: Stride { value: stride },
            main_seen: 0,
            last_time: 0,
            keep_gps,
            main_signed,
            slow_signed,
            gps_signed,
            main: Series { times: Vec::new(), values: Vec::new() },
            slow: Series { times: Vec::new(), values: Vec::new() },
            gps: Series { times: Vec::new(), values: Vec::new() },
        };
        assert(recorder@.main =~= empty_series());
        assert(recorder@.slow =~= empty_series());
        assert(recorder@.gps =~= empty_series());
        recorder
    }

    /// Records one item of the data section.
    pub fn record(&mut self, event: FrameEvent)
        requires
            old(self)@.main_seen < u64::MAX,
        ensures
            final(self)@ == step(old(self)@, event@),
    {
        proof {
            use_type_invariant(&self.stride);
        }
        match event {
            FrameEvent::Main { time, values } => {
                let keep = self.main_seen % self.stride.value == 0;
                self.main_seen = self.main_seen + 1;
                self.last_time = time;
                if keep {
                    self.main.times.push(time);
                    push_raw_values(&values, &self.main_signed, &mut self.main.values);
                }
            },
            FrameEvent::Slow { values } => {
                let time = self.last_time;
                self.slow.times.push(time);
                push_raw_values(&values, &self.slow_signed, &mut self.slow.values);
            },
            FrameEvent::Gps { values } => {
                if self.keep_gps {
                    let time = self.last_time;
                    self.gps.times.push(time);
                    push_raw_values(&values, &self.gps_signed, &mut self.gps.values);
                }
            },
            FrameEvent::Other => {},
        }
    }

    /// The recorded main, slow and GPS streams.
    pub fn into_series(self) -> (series: (Series, Series, Series))
        ensures
            series.0@ == self@.main,
            series.1@ == self@.slow,
            series.2@ == self@.gps,
    {
        (self.main, self.slow, self.gps)
    }
}

} // verus!
