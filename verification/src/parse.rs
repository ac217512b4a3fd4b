//! Reading a blackbox file: finding its first log, reading that log's field
//! definitions and header strings, and recording its whole data section.

use blackbox_log::Headers;
use vstd::prelude::*;

use crate::decoder::{
    board_info, craft_name, data_parser, decoded, decoded_log, firmware_text, fits_log, gps_field,
    gps_field_count, gps_frame_values, gps_len, gps_raw, has_gps_fields, log_count, main_field,
    main_field_count, main_frame_values, main_len, main_raw, main_time_raw, marker_count,
    next_event, open_file, parse_log, parser_events, parser_last_iteration, slow_field,
    slow_field_count, slow_frame_values, slow_len, slow_raw, step_event, DecodedLog, LogEvent,
    ParsedEvent,
};
use crate::fields::{
    field_names, field_signed_bytes, field_unit_labels, field_views, signed_flags, texts,
    unit_name, unpack_fields, FieldInfo, FieldView,
};
use crate::flight_log::{FlightLog, FlightLogView, FrameStream, StreamView};
use crate::laws::{
    every_nth, frames_only, gps_rows, kept_count, kept_main_rows, laid_out,
    law_logged_events_ignored, law_main_downsampling, law_slow_and_gps_stamps,
    law_stride_monotone, main_rows, rows_have, slow_rows,
};
use crate::samples::{
    effective_stride, fresh_recorder, replay, FrameEvent, FrameEventView, FrameRecorder,
    RecorderView, Series, SeriesView,
};

verus! {

/// Why a buffer yields no flight log.
pub enum ParseFailure {
    /// The buffer holds no log marker.
    NoLog,
    /// The first log's headers could not be read.
    MissingHeaders,
    /// The first log's headers are invalid; the decoder's account of why.
    InvalidHeaders(String),
}

/// The mathematical value of a [`ParseFailure`].
pub enum ParseFailureView {
    NoLog,
    MissingHeaders,
    InvalidHeaders(Seq<char>),
}

impl View for ParseFailure {
    type V = ParseFailureView;

    open spec fn view(&self) -> ParseFailureView {
        match self {
            ParseFailure::NoLog => ParseFailureView::NoLog,
            ParseFailure::MissingHeaders => ParseFailureView::MissingHeaders,
            ParseFailure::InvalidHeaders(reason) => ParseFailureView::InvalidHeaders(reason@),
        }
    }
}

/// The message that reports a failure.
pub open spec fn failure_message(failure: ParseFailureView) -> Seq<char> {
    match failure {
        ParseFailureView::NoLog => "No valid log found in buffer. Is this actually a blackbox file?"@,
        ParseFailureView::MissingHeaders => "Failed to read first log's headers"@,
        ParseFailureView::InvalidHeaders(reason) => "Header parse error: "@ + reason,
    }
}

/// Each failure is reported with its own message: a fixed text for a buffer
/// without a log and for unreadable headers, and for invalid headers the
/// text `Header parse error: ` followed by the decoder's account of why.
pub proof fn law_failure_messages(reason: Seq<char>)
    ensures
        failure_message(ParseFailureView::NoLog)
            == "No valid log found in buffer. Is this actually a blackbox file?"@,
        failure_message(ParseFailureView::MissingHeaders) == "Failed to read first log's headers"@,
        failure_message(ParseFailureView::InvalidHeaders(reason)).len() == 20 + reason.len(),
        failure_message(ParseFailureView::InvalidHeaders(reason)).take(20)
            == "Header parse error: "@,
        failure_message(ParseFailureView::InvalidHeaders(reason)).skip(20) == reason,
{
    reveal_strlit("Header parse error: ");
    let text = failure_message(ParseFailureView::InvalidHeaders(reason));
    assert(text.take(20) =~= "Header parse error: "@);
    assert(text.skip(20) =~= reason);
}

impl ParseFailure {
    /// The message that reports this failure.
    pub fn message(&self) -> (text: String)
        ensures
            text@ == failure_message(self@),
    {
        match self {
            ParseFailure::NoLog => String::from_str(
                "No valid log found in buffer. Is this actually a blackbox file?",
            ),
            ParseFailure::MissingHeaders => String::from_str("Failed to read first log's headers"),
            ParseFailure::InvalidHeaders(reason) => {
                let mut text = String::from_str("Header parse error: ");
                text.append(reason.as_str());
                text
            },
        }
    }
}

/// A text, or the empty text where there is none.
pub open spec fn text_or_empty(text: Option<Seq<char>>) -> Seq<char> {
    match text {
        Some(t) => t,
        None => Seq::empty(),
    }
}

/// The GPS field definitions of a decoded log; none without GPS frames.
pub open spec fn gps_fields_or_none(source: DecodedLog) -> Seq<FieldView> {
    match source.gps_fields {
        Some(fields) => fields,
        None => Seq::empty(),
    }
}

/// The signedness flags of `fields`, in order.
pub open spec fn signed_of(fields: Seq<FieldView>) -> Seq<bool> {
    fields.map_values(|f: FieldView| f.signed)
}

/// A decoded item with its values as raw samples, none of them missing.
pub open spec fn as_frame_event(event: LogEvent) -> FrameEventView {
    match event {
        LogEvent::Main { time, values } => FrameEventView::Main {
            time,
            values: values.map_values(|v: u32| Some(v)),
        },
        LogEvent::Slow { values } => FrameEventView::Slow {
            values: values.map_values(|v: u32| Some(v)),
        },
        LogEvent::Gps { values } => FrameEventView::Gps {
            values: values.map_values(|v: u32| Some(v)),
        },
        LogEvent::Other => FrameEventView::Other,
    }
}

/// The decoded items of a data section as recorder input.
pub open spec fn as_frame_events(events: Seq<LogEvent>) -> Seq<FrameEventView> {
    events.map_values(|e: LogEvent| as_frame_event(e))
}

/// Whether an item is a main frame whose loop iteration (its first value) is
/// `u32::MAX`: the last item the decoder can read, since it numbers the next
/// inter frame one higher without a check for overflow.
pub open spec fn ends_reading(event: LogEvent) -> bool {
    event matches LogEvent::Main { values, .. } && values.len() > 0 && values[0] == u32::MAX
}

/// The items of a data section that are read: all of them, up to and
/// including the first main frame whose loop iteration is `u32::MAX`.
pub open spec fn readable_events(events: Seq<LogEvent>) -> Seq<LogEvent>
    decreases events.len(),
{
    if events.len() == 0 {
        events
    } else if ends_reading(events[0]) {
        events.take(1)
    } else {
        seq![events[0]] + readable_events(events.drop_first())
    }
}

/// The recorder state after the items read of a decoded log's data section,
/// down-sampling main frames by `main_stride`.
pub open spec fn recorded(source: DecodedLog, main_stride: u32) -> RecorderView {
    replay(
        fresh_recorder(
            main_stride,
            signed_of(source.main_fields),
            signed_of(source.slow_fields),
            signed_of(gps_fields_or_none(source)),
            source.gps_fields is Some,
        ),
        as_frame_events(readable_events(source.events)),
    )
}

/// A stream with the metadata of `fields` and the samples of `series`.
pub open spec fn stream_of(fields: Seq<FieldView>, series: SeriesView) -> StreamView {
    StreamView {
        names: field_names(fields),
        signed: field_signed_bytes(fields),
        units: field_unit_labels(fields),
        cols: fields.len(),
        times: series.times,
        frames: series.values,
    }
}

/// The flight log read from a decoded log.
pub open spec fn log_model(source: DecodedLog, main_stride: u32) -> FlightLogView {
    let r = recorded(source, main_stride);
    FlightLogView {
        firmware: source.firmware,
        craft_name: text_or_empty(source.craft_name),
        board_info: text_or_empty(source.board_info),
        has_gps: source.gps_fields is Some,
        main: stream_of(source.main_fields, r.main),
        slow: stream_of(source.slow_fields, r.slow),
        gps: stream_of(gps_fields_or_none(source), r.gps),
    }
}

/// The samples of a stream as a series.
pub open spec fn series_of(stream: StreamView) -> SeriesView {
    SeriesView { times: stream.times, values: stream.frames }
}

/// The streams of `log` hold the frames of the data section of the decoded
/// log `source` that are read (`readable_events`), field `c` of row `i` at
/// `i * cols + c`: the main stream the
/// `(j * k)`-th main frames for `j` while `j * k` is below the number of main
/// frames (`k` the effective stride), with their own time stamps; the slow
/// stream every slow frame, and the GPS stream (when the log has GPS frames)
/// every GPS frame, each stamped with the time of the latest main frame
/// before it. Samples are read with their field's signedness.
pub open spec fn rows_laid_out(log: FlightLogView, source: DecodedLog, main_stride: u32) -> bool {
    let events = as_frame_events(readable_events(source.events));
    let k = effective_stride(main_stride);
    &&& kept_count(log.main.times.len(), k, main_rows(events).len())
    &&& laid_out(
        series_of(log.main),
        every_nth(main_rows(events), k, log.main.times.len()),
        signed_of(source.main_fields),
        log.main.cols,
    )
    &&& laid_out(
        series_of(log.slow),
        slow_rows(events),
        signed_of(source.slow_fields),
        log.slow.cols,
    )
    &&& log.has_gps ==> laid_out(
        series_of(log.gps),
        gps_rows(events),
        signed_of(gps_fields_or_none(source)),
        log.gps.cols,
    )
}

/// The items of a data section that are frames, in order: logged events
/// left out.
pub open spec fn without_logged_events(events: Seq<LogEvent>) -> Seq<LogEvent>
    decreases events.len(),
{
    if events.len() == 0 {
        Seq::empty()
    } else {
        let rest = without_logged_events(events.drop_first());
        match events[0] {
            LogEvent::Other => rest,
            _ => seq![events[0]] + rest,
        }
    }
}

proof fn lemma_frames_commute(events: Seq<LogEvent>)
    ensures
        as_frame_events(without_logged_events(events)) == frames_only(as_frame_events(events)),
    decreases events.len(),
{
    if events.len() > 0 {
        let rest = events.drop_first();
        lemma_frames_commute(rest);
        assert(as_frame_events(events).drop_first() =~= as_frame_events(rest));
        assert(as_frame_events(events)[0] == as_frame_event(events[0]));
        match events[0] {
            LogEvent::Other => {},
            _ => {
                assert(as_frame_events(seq![events[0]] + without_logged_events(rest))
                    =~= seq![as_frame_event(events[0])] + as_frame_events(
                    without_logged_events(rest),
                ));
            },
        }
    }
}

proof fn lemma_without_first(event: LogEvent, rest: Seq<LogEvent>)
    ensures
        without_logged_events(seq![event] + rest) == (match event {
            LogEvent::Other => without_logged_events(rest),
            _ => seq![event] + without_logged_events(rest),
        }),
{
    let all = seq![event] + rest;
    assert(all.drop_first() =~= rest);
    assert(all[0] == event);
}

proof fn lemma_readable_without(events: Seq<LogEvent>)
    ensures
        without_logged_events(readable_events(events)) == readable_events(
            without_logged_events(events),
        ),
    decreases events.len(),
{
    if events.len() > 0 {
        let first = events[0];
        let rest = events.drop_first();
        lemma_readable_without(rest);
        assert(events =~= seq![first] + rest);
        lemma_without_first(first, rest);
        if ends_reading(first) {
            assert(events.take(1) =~= seq![first] + Seq::<LogEvent>::empty());
            lemma_without_first(first, Seq::<LogEvent>::empty());
            let stripped = seq![first] + without_logged_events(rest);
            assert(stripped[0] == first);
            assert(stripped.take(1) =~= seq![first] + without_logged_events(Seq::<LogEvent>::empty()));
        } else {
            lemma_without_first(first, readable_events(rest));
            match first {
                LogEvent::Other => {},
                _ => {
                    let stripped = seq![first] + without_logged_events(rest);
                    assert(stripped[0] == first);
                    assert(stripped.drop_first() =~= without_logged_events(rest));
                },
            }
        }
    }
}

/// Logged events never reach a flight log: the log read from a decoded log
/// is the one read from the same decoded log with its logged events left
/// out of the data section.
pub proof fn law_log_ignores_logged_events(source: DecodedLog, main_stride: u32)
    ensures
        log_model(source, main_stride) == log_model(
            DecodedLog { events: without_logged_events(source.events), ..source },
            main_stride,
        ),
{
    let stripped = DecodedLog { events: without_logged_events(source.events), ..source };
    let read = readable_events(source.events);
    lemma_frames_commute(read);
    lemma_readable_without(source.events);
    law_logged_events_ignored(
        fresh_recorder(
            main_stride,
            signed_of(source.main_fields),
            signed_of(source.slow_fields),
            signed_of(gps_fields_or_none(source)),
            source.gps_fields is Some,
        ),
        as_frame_events(read),
    );
    assert(recorded(source, main_stride) == recorded(stripped, main_stride));
}

/// `coarse` is `fine` taken every `step`-th item, starting with the first.
pub open spec fn every_step_of(coarse: Seq<u64>, fine: Seq<u64>, step: int) -> bool {
    &&& coarse.len() > 0 ==> (coarse.len() - 1) * step < fine.len()
    &&& forall|j: int| 0 <= j < coarse.len() ==> #[trigger] coarse[j] == fine[j * step]
}

/// Down-sampling at two strides. Reading the same decoded log at a stride
/// `s2` no smaller than `s1` (both at least 1) keeps no more main frames than
/// at `s1`; and when `s2` is a multiple of `s1`, the main time stamps kept at
/// `s2` are those kept at `s1` taken every `(s2 / s1)`-th one (the rows
/// themselves: `law_stride_monotone`).
pub proof fn law_log_stride_monotone(source: DecodedLog, s1: u32, s2: u32)
    requires
        1 <= s1 <= s2,
    ensures
        log_model(source, s2).main.times.len() <= log_model(source, s1).main.times.len(),
        s2 % s1 == 0 ==> every_step_of(
            log_model(source, s2).main.times,
            log_model(source, s1).main.times,
            (s2 / s1) as int,
        ),
{
    let main_signed = signed_of(source.main_fields);
    let slow_signed = signed_of(source.slow_fields);
    let gps_signed = signed_of(gps_fields_or_none(source));
    let keep_gps = source.gps_fields is Some;
    let events = as_frame_events(readable_events(source.events));
    law_stride_monotone(s1, s2, main_signed, slow_signed, gps_signed, keep_gps, events);
    law_main_downsampling(s1, main_signed, slow_signed, gps_signed, keep_gps, events, 0);
    law_main_downsampling(s2, main_signed, slow_signed, gps_signed, keep_gps, events, 0);
    let times1 = log_model(source, s1).main.times;
    let times2 = log_model(source, s2).main.times;
    let rows1 = kept_main_rows(s1, main_signed, slow_signed, gps_signed, keep_gps, events);
    let rows2 = kept_main_rows(s2, main_signed, slow_signed, gps_signed, keep_gps, events);
    if s2 % s1 == 0 {
        let step = (s2 / s1) as int;
        assert forall|j: int| 0 <= j < times2.len() implies #[trigger] times2[j] == times1[j
            * step] by {
            assert(kept_main_rows(s2, main_signed, slow_signed, gps_signed, keep_gps, events)[j]
                == kept_main_rows(s1, main_signed, slow_signed, gps_signed, keep_gps, events)[j
                * (s2 / s1)]);
            assert(times2[j] == rows2[j].0);
            assert(j * step <= (times2.len() - 1) * step) by (nonlinear_arith)
                requires
                    0 <= j <= times2.len() - 1,
                    step >= 0,
            ;
            assert(0 <= j * step) by (nonlinear_arith)
                requires
                    0 <= j,
                    step >= 0,
            ;
            assert(times1[j * step] == rows1[j * step].0);
        }
    }
}

/// The items read are those before the first main frame whose loop
/// iteration is `u32::MAX`, and that frame itself if there is one.
proof fn lemma_readable_prefix(events: Seq<LogEvent>, k: int)
    requires
        0 <= k <= events.len(),
        forall|j: int| 0 <= j < k ==> !ends_reading(#[trigger] events[j]),
    ensures
        k == events.len() ==> readable_events(events) == events,
        k < events.len() && ends_reading(events[k]) ==> readable_events(events) == events.take(
            k + 1,
        ),
    decreases k,
{
    if events.len() > 0 {
        if k == 0 {
        } else {
            let rest = events.drop_first();
            assert forall|j: int| 0 <= j < k - 1 implies !ends_reading(#[trigger] rest[j]) by {
                assert(rest[j] == events[j + 1]);
            }
            assert(!ends_reading(events[0]));
            lemma_readable_prefix(rest, k - 1);
            if k == events.len() {
                assert(seq![events[0]] + rest =~= events);
            } else if ends_reading(events[k]) {
                assert(rest[k - 1] == events[k]);
                assert(seq![events[0]] + rest.take(k) =~= events.take(k + 1));
            }
        }
    }
}

/// Down-sampling at one stride. A stride of 0 reads the same flight log as
/// a stride of 1; a stride `s` of at least 1 keeps the main frames read at
/// positions `0, s, 2 * s, ...`: the `j`-th kept time stamp is that of the
/// `(j * s)`-th main frame, and a main frame's position is kept exactly
/// when it is a multiple of `s`.
pub proof fn law_log_main_stride(source: DecodedLog, main_stride: u32)
    ensures
        main_stride == 0 ==> log_model(source, main_stride) == log_model(source, 1),
        main_stride >= 1 ==> ({
            let rows = main_rows(as_frame_events(readable_events(source.events)));
            let times = log_model(source, main_stride).main.times;
            &&& times.len() * main_stride >= rows.len()
            &&& times.len() == 0 || (times.len() - 1) * main_stride < rows.len()
            &&& forall|j: int|
                0 <= j < times.len() ==> #[trigger] times[j] == rows[j * main_stride].0
        }),
{
    let main_signed = signed_of(source.main_fields);
    let slow_signed = signed_of(source.slow_fields);
    let gps_signed = signed_of(gps_fields_or_none(source));
    let keep_gps = source.gps_fields is Some;
    let events = as_frame_events(readable_events(source.events));
    if main_stride == 0 {
        assert(fresh_recorder(main_stride, main_signed, slow_signed, gps_signed, keep_gps)
            == fresh_recorder(1, main_signed, slow_signed, gps_signed, keep_gps));
    } else {
        law_main_downsampling(main_stride, main_signed, slow_signed, gps_signed, keep_gps, events, 0);
    }
}

/// Which items of a data section are read: every one of them when no main
/// frame has loop iteration (first value) `u32::MAX`; otherwise those up to
/// and including the first main frame that has, here the `k`-th item.
pub proof fn law_read_items(events: Seq<LogEvent>, k: int)
    requires
        0 <= k <= events.len(),
        forall|j: int|
            0 <= j < k ==> !(#[trigger] events[j] matches LogEvent::Main { values, .. } && values.len()
                > 0 && values[0] == u32::MAX),
    ensures
        k == events.len() ==> readable_events(events) == events,
        k < events.len() && (events[k] matches LogEvent::Main { values, .. } && values.len() > 0
            && values[0] == u32::MAX) ==> readable_events(events) == events.take(k + 1),
{
    assert forall|j: int| 0 <= j < k implies !ends_reading(#[trigger] events[j]) by {}
    lemma_readable_prefix(events, k);
}

/// The header texts of a flight log are the decoder's: the firmware text,
/// and the craft name and board information as recorded, empty where the
/// log records none; the log has GPS streams exactly when it defines GPS
/// frames.
pub proof fn law_header_texts(source: DecodedLog, main_stride: u32)
    ensures
        log_model(source, main_stride).firmware == source.firmware,
        source.craft_name matches Some(t) ==> log_model(source, main_stride).craft_name == t,
        source.craft_name is None ==> log_model(source, main_stride).craft_name == Seq::<
            char,
        >::empty(),
        source.board_info matches Some(t) ==> log_model(source, main_stride).board_info == t,
        source.board_info is None ==> log_model(source, main_stride).board_info == Seq::<
            char,
        >::empty(),
        log_model(source, main_stride).has_gps == source.gps_fields is Some,
{
}

/// A stream describes `fields`: one column per field, in order, with the
/// field's own name, its signedness as a byte (1 signed, 0 unsigned) and the
/// name of its unit.
pub open spec fn describes(stream: StreamView, fields: Seq<FieldView>) -> bool {
    &&& stream.cols == fields.len()
    &&& stream.names.len() == fields.len()
    &&& stream.signed.len() == fields.len()
    &&& stream.units.len() == fields.len()
    &&& forall|i: int|
        0 <= i < fields.len() ==> {
            &&& stream.names[i] == (#[trigger] fields[i]).name
            &&& stream.signed[i] == (if fields[i].signed {
                1u8
            } else {
                0u8
            })
            &&& stream.units[i] == unit_name(fields[i].unit)
        }
}

/// The field metadata of each stream of a flight log is that of the decoded
/// field definitions of its frame kind: names, signedness and unit labels,
/// column by column; the GPS stream has no columns when the log defines no
/// GPS frames.
pub proof fn law_stream_metadata(source: DecodedLog, main_stride: u32)
    ensures
        describes(log_model(source, main_stride).main, source.main_fields),
        describes(log_model(source, main_stride).slow, source.slow_fields),
        source.gps_fields matches Some(fields) ==> describes(
            log_model(source, main_stride).gps,
            fields,
        ),
        source.gps_fields is None ==> log_model(source, main_stride).gps.cols == 0,
{
}

/// Which frame definition to read.
enum FieldSet {
    Main,
    Slow,
    Gps,
}

/// The field definitions of one frame kind, as decoded.
spec fn defined_fields(headers: Headers, set: FieldSet) -> Seq<FieldView> {
    match set {
        FieldSet::Main => decoded(headers).main_fields,
        FieldSet::Slow => decoded(headers).slow_fields,
        FieldSet::Gps => gps_fields_or_none(decoded(headers)),
    }
}

/// Reads the field definitions of one frame kind, in order; none for GPS
/// when the log has no GPS frames.
fn read_fields(headers: &Headers, set: FieldSet) -> (fields: Vec<FieldInfo>)
    ensures
        field_views(fields@) == defined_fields(*headers, set),
{
    let ghost all = defined_fields(*headers, set);
    let count = match set {
        FieldSet::Main => main_field_count(headers),
        FieldSet::Slow => slow_field_count(headers),
        FieldSet::Gps => gps_field_count(headers),
    };
    let mut fields: Vec<FieldInfo> = Vec::new();
    for i in 0..count
        invariant
            all == defined_fields(*headers, set),
            count == all.len(),
            field_views(fields@) == all.take(i as int),
    {
        let field = match set {
            FieldSet::Main => main_field(headers, i),
            FieldSet::Slow => slow_field(headers, i),
            FieldSet::Gps => gps_field(headers, i),
        };
        if let Some(field) = field {
            let ghost before = fields@;
            fields.push(field);
            assert(field_views(fields@) =~= field_views(before).push(field@));
            assert(field_views(fields@) =~= all.take(i + 1));
        }
    }
    assert(all.take(count as int) =~= all);
    fields
}

/// The raw values of the frame a parser step yielded; none for other steps.
pub open spec fn step_values(step: ParsedEvent) -> Seq<u32> {
    match step {
        ParsedEvent::Main(frame) => main_frame_values(frame),
        ParsedEvent::Slow(frame) => slow_frame_values(frame),
        ParsedEvent::Gps(frame) => gps_frame_values(frame),
        _ => Seq::empty(),
    }
}

/// Reads every value of the frame a parser step yielded, in field order.
fn frame_samples(step: &ParsedEvent) -> (row: Vec<Option<u32>>)
    ensures
        row@ == step_values(*step).map_values(|v: u32| Some(v)),
{
    let len = match step {
        ParsedEvent::Main(frame) => main_len(frame),
        ParsedEvent::Slow(frame) => slow_len(frame),
        ParsedEvent::Gps(frame) => gps_len(frame),
        _ => 0,
    };
    let ghost values = step_values(*step);
    let mut row: Vec<Option<u32>> = Vec::new();
    for i in 0..len
        invariant
            values == step_values(*step),
            len == values.len(),
            row@ == values.take(i as int).map_values(|v: u32| Some(v)),
    {
        let raw = match step {
            ParsedEvent::Main(frame) => main_raw(frame, i),
            ParsedEvent::Slow(frame) => slow_raw(frame, i),
            ParsedEvent::Gps(frame) => gps_raw(frame, i),
            _ => None,
        };
        row.push(raw);
        assert(row@ =~= values.take(i + 1).map_values(|v: u32| Some(v)));
    }
    assert(values.take(len as int) =~= values);
    row
}

/// The recorder input for a parser step that is not the end.
fn to_frame_event(step: &ParsedEvent) -> (event: FrameEvent)
    requires
        !(*step is End),
    ensures
        event@ == as_frame_event(step_event(*step)),
{
    let values = frame_samples(step);
    match step {
        ParsedEvent::Main(frame) => FrameEvent::Main { time: main_time_raw(frame), values },
        ParsedEvent::Slow(_) => FrameEvent::Slow { values },
        ParsedEvent::Gps(_) => FrameEvent::Gps { values },
        _ => FrameEvent::Other,
    }
}

/// A text, or the empty text where there is none.
fn or_empty(text: Option<String>) -> (out: String)
    ensures
        out@ == text_or_empty(
            match text {
                Some(t) => Some(t@),
                None => None,
            },
        ),
        text matches Some(t) ==> out@ == t@,
        text is None ==> out@ == Seq::<char>::empty(),
{
    match text {
        Some(t) => t,
        None => String::new(),
    }
}

proof fn lemma_rows_fit(source: DecodedLog, events: Seq<LogEvent>)
    requires
        forall|k: int| 0 <= k < events.len() ==> fits_log(#[trigger] events[k], source),
    ensures
        rows_have(main_rows(as_frame_events(events)), source.main_fields.len()),
        rows_have(slow_rows(as_frame_events(events)), source.slow_fields.len()),
        rows_have(gps_rows(as_frame_events(events)), gps_fields_or_none(source).len()),
    decreases events.len(),
{
    let all = as_frame_events(events);
    if events.len() > 0 {
        let before = events.drop_last();
        assert forall|k: int| 0 <= k < before.len() implies fits_log(#[trigger] before[k], source) by {
            assert(before[k] == events[k]);
        }
        lemma_rows_fit(source, before);
        assert(all.drop_last() =~= as_frame_events(before));
        assert(fits_log(events[events.len() - 1], source));
        assert(all.last() == as_frame_event(events.last()));
    }
}

/// The signedness flags read back from signedness bytes are the fields' own.
proof fn lemma_flags_of_bytes(fields: Seq<FieldView>)
    ensures
        field_signed_bytes(fields).map_values(|b: u8| b != 0) == signed_of(fields),
{
    assert(field_signed_bytes(fields).map_values(|b: u8| b != 0) =~= signed_of(fields));
}

/// The stream of a frame kind from its unpacked field metadata and its
/// recorded samples.
fn assemble_stream(
    names: Vec<String>,
    signed: Vec<u8>,
    units: Vec<String>,
    series: Series,
    Ghost(fields): Ghost<Seq<FieldView>>,
) -> (stream: FrameStream)
    requires
        texts(names@) == field_names(fields),
        signed@ == field_signed_bytes(fields),
        texts(units@) == field_unit_labels(fields),
    ensures
        stream@ == stream_of(fields, series@),
{
    let stream = FrameStream::new(names, signed, units, series.times, series.values);
    assert(stream@ =~= stream_of(fields, series@));
    stream
}

/// Reads the log whose decoded headers these are: its header strings, the field
/// metadata of each frame kind, and its data section, keeping every
/// `main_stride`-th main frame (every one for 0 or 1), every slow frame, and
/// every GPS frame when the log defines GPS frames. The data section is read
/// up to and including the first main frame whose loop iteration is
/// `u32::MAX`, if there is one: the decoder cannot number a frame after it.
pub fn read_log(headers: &Headers, main_stride: u32) -> (log: FlightLog)
    ensures
        log@ == log_model(decoded(*headers), main_stride),
        log@.well_formed(),
        rows_laid_out(log@, decoded(*headers), main_stride),
{
    let main_fields = read_fields(headers, FieldSet::Main);
    let slow_fields = read_fields(headers, FieldSet::Slow);
    let has_gps = has_gps_fields(headers);
    let gps_fields = read_fields(headers, FieldSet::Gps);

    let (main_names, main_signed, main_units) = unpack_fields(&main_fields);
    let (slow_names, slow_signed, slow_units) = unpack_fields(&slow_fields);
    let (gps_names, gps_signed, gps_units) = unpack_fields(&gps_fields);

    let main_flags = signed_flags(&main_signed);
    let slow_flags = signed_flags(&slow_signed);
    let gps_flags = signed_flags(&gps_signed);
    proof {
        lemma_flags_of_bytes(decoded(*headers).main_fields);
        lemma_flags_of_bytes(decoded(*headers).slow_fields);
        lemma_flags_of_bytes(gps_fields_or_none(decoded(*headers)));
    }

    let mut recorder = FrameRecorder::new(main_stride, main_flags, slow_flags, gps_flags, has_gps);
    let ghost start = recorder@;
    let ghost events = decoded(*headers).events;
    let ghost all = as_frame_events(events);
    let mut parser = data_parser(headers);
    let ghost mut k: int = 0;
    loop
        invariant_except_break
            start == fresh_recorder(
                main_stride,
                signed_of(decoded(*headers).main_fields),
                signed_of(decoded(*headers).slow_fields),
                signed_of(gps_fields_or_none(decoded(*headers))),
                decoded(*headers).gps_fields is Some,
            ),
            events == decoded(*headers).events,
            all == as_frame_events(events),
            events.len() < usize::MAX,
            0 <= k <= events.len(),
            parser_events(parser) == events.skip(k),
            parser_last_iteration(parser) != Some(u32::MAX),
            forall|j: int| 0 <= j < k ==> !ends_reading(#[trigger] events[j]),
            recorder@ == replay(start, all.take(k)),
            recorder@.main_seen <= k,
        ensures
            readable_events(events).len() <= events.len(),
            forall|j: int|
                0 <= j < readable_events(events).len() ==> #[trigger] readable_events(events)[j]
                    == events[j],
            recorder@ == replay(start, as_frame_events(readable_events(events))),
        decreases parser_events(parser).len(),
    {
        let step = next_event(&mut parser);
        if let ParsedEvent::End = step {
            proof {
                lemma_readable_prefix(events, k);
                assert(all.take(k) =~= all);
            }
            break ;
        }
        let event = to_frame_event(&step);
        let stop = match &event {
            FrameEvent::Main { values, .. } => values.len() > 0 && match values[0] {
                Some(iteration) => iteration == u32::MAX,
                None => false,
            },
            _ => false,
        };
        proof {
            assert(events.skip(k)[0] == events[k]);
            assert(all[k] == as_frame_event(events[k]));
            assert(all.take(k + 1).drop_last() =~= all.take(k));
            assert(stop == ends_reading(events[k]));
        }
        recorder.record(event);
        proof {
            assert(events.skip(k).drop_first() =~= events.skip(k + 1));
            k = k + 1;
        }
        if stop {
            proof {
                lemma_readable_prefix(events, k - 1);
                assert(as_frame_events(events.take(k)) =~= all.take(k));
            }
            break ;
        }
    }

    let (main_series, slow_series, gps_series) = recorder.into_series();
    let ghost r = recorder@;
    let ghost read = readable_events(events);
    let ghost read_all = as_frame_events(read);
    proof {
        assert forall|j: int| 0 <= j < read.len() implies fits_log(
            #[trigger] read[j],
            decoded(*headers),
        ) by {
            assert(read[j] == events[j]);
        }
        lemma_rows_fit(decoded(*headers), read);
        law_main_downsampling(
            main_stride,
            start.main_signed,
            start.slow_signed,
            start.gps_signed,
            start.keep_gps,
            read_all,
            decoded(*headers).main_fields.len(),
        );
        law_slow_and_gps_stamps(
            main_stride,
            start.main_signed,
            start.slow_signed,
            start.gps_signed,
            start.keep_gps,
            read_all,
            decoded(*headers).slow_fields.len(),
            gps_fields_or_none(decoded(*headers)).len(),
        );
    }
    let main = assemble_stream(
        main_names,
        main_signed,
        main_units,
        main_series,
        Ghost(decoded(*headers).main_fields),
    );
    let slow = assemble_stream(
        slow_names,
        slow_signed,
        slow_units,
        slow_series,
        Ghost(decoded(*headers).slow_fields),
    );
    let gps = assemble_stream(
        gps_names,
        gps_signed,
        gps_units,
        gps_series,
        Ghost(gps_fields_or_none(decoded(*headers))),
    );
    let log = FlightLog::new(
        firmware_text(headers),
        or_empty(craft_name(headers)),
        or_empty(board_info(headers)),
        has_gps,
        main,
        slow,
        gps,
    );
    proof {
        assert(r == recorded(decoded(*headers), main_stride));
        assert(series_of(log@.main) =~= r.main);
        assert(series_of(log@.slow) =~= r.slow);
        assert(series_of(log@.gps) =~= r.gps);
    }
    log
}

/// Reads the first log of a blackbox file (`.bbl`, `.bfl` or `.txt`),
/// keeping every `main_stride`-th main frame (every one for 0 or 1); GPS and
/// slow frames are kept at full rate. Later logs in the same file are not
/// read: the result is the flight log read from the buffer's first log,
/// whose data section is read as `read_log` reads it.
/// Fails with `NoLog` when the buffer holds no log marker, and with
/// `InvalidHeaders` when the first log's headers do not decode.
pub fn parse_blackbox(bytes: &[u8], main_stride: u32) -> (result: Result<FlightLog, ParseFailure>)
    requires
        bytes@.len() < usize::MAX,
    ensures
        (result matches Err(ParseFailure::NoLog)) <==> marker_count(bytes@) == 0,
        !(result matches Err(ParseFailure::MissingHeaders)),
        (result matches Err(ParseFailure::InvalidHeaders(_))) <==> (marker_count(bytes@) > 0
            && decoded_log(bytes@, 0) is Err),
        result matches Err(ParseFailure::InvalidHeaders(reason)) ==> (decoded_log(
            bytes@,
            0,
        ) matches Err(why) && why == reason@),
        result is Ok <==> (marker_count(bytes@) > 0 && decoded_log(bytes@, 0) is Ok),
        result matches Ok(log) ==> (decoded_log(bytes@, 0) matches Ok(first) && log@ == log_model(
            first,
            main_stride,
        )),
        result matches Ok(log) ==> log@.well_formed(),
        result matches Ok(log) ==> (decoded_log(bytes@, 0) matches Ok(first) && rows_laid_out(
            log@,
            first,
            main_stride,
        )),
{
    let file = open_file(bytes);
    if log_count(&file) == 0 {
        return Err(ParseFailure::NoLog);
    }
    match parse_log(&file, 0) {
        None => Err(ParseFailure::MissingHeaders),
        Some(Err(reason)) => Err(ParseFailure::InvalidHeaders(reason)),
        Some(Ok(headers)) => {
            let log = read_log(&headers, main_stride);
            Ok(log)
        },
    }
}

} // verus!
