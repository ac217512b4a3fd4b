//! The calls into the `blackbox-log` decoder. Each function here makes one
//! call and converts its result into the library's own values; its contract
//! is trusted, and says what the decoder's source shows of that call.

use blackbox_log::frame::{
    Frame, FrameDef, GpsFrame, GpsUnit, MainFrame, MainUnit, SlowFrame, SlowUnit,
};
use blackbox_log::{DataParser, File, Headers, ParserEvent};
use vstd::prelude::*;

use crate::fields::{FieldInfo, FieldUnit, FieldView};

verus! {

#[verifier::external_type_specification]
#[verifier::external_body]
pub struct ExFile<'data>(File<'data>);

#[verifier::external_type_specification]
#[verifier::external_body]
pub struct ExHeaders<'data>(Headers<'data>);

#[verifier::external_type_specification]
#[verifier::external_body]
pub struct ExDataParser<'data, 'headers>(DataParser<'data, 'headers>);

#[verifier::external_type_specification]
#[verifier::external_body]
pub struct ExMainFrame<'data, 'headers, 'parser>(MainFrame<'data, 'headers, 'parser>);

#[verifier::external_type_specification]
#[verifier::external_body]
pub struct ExSlowFrame<'data, 'headers, 'parser>(SlowFrame<'data, 'headers, 'parser>);

#[verifier::external_type_specification]
#[verifier::external_body]
pub struct ExGpsFrame<'data, 'headers, 'parser>(GpsFrame<'data, 'headers, 'parser>);

/// The first line of every log inside a blackbox file.
pub open spec fn log_marker() -> Seq<u8> {
    "H Product:Blackbox flight data recorder by Nicholas Sherlock\n"@.map_values(|c: char| c as u8)
}

/// Whether `data` begins with the log marker.
pub open spec fn starts_with_marker(data: Seq<u8>) -> bool {
    data.len() >= log_marker().len() && data.take(log_marker().len() as int) == log_marker()
}

/// The number of positions in `data` at which the log marker begins.
pub open spec fn marker_count(data: Seq<u8>) -> nat
    decreases data.len(),
{
    if data.len() == 0 {
        0
    } else {
        (if starts_with_marker(data) {
            1nat
        } else {
            0nat
        }) + marker_count(data.drop_first())
    }
}

/// One item of the data section of a log, as the decoder yields it: main
/// frames carry their time stamp in microseconds and their raw field values,
/// slow and GPS frames their raw field values; `Other` is a logged event.
pub enum LogEvent {
    Main { time: u64, values: Seq<u32> },
    Slow { values: Seq<u32> },
    Gps { values: Seq<u32> },
    Other,
}

/// The bytes a decoder file was opened on.
pub uninterp spec fn file_bytes(file: File) -> Seq<u8>;

/// What the decoder reads from one log of a file: the field definitions of
/// main, slow and (if the log has them) GPS frames, in order; the debug text
/// of the firmware; the craft name and board information, if recorded; and
/// the items of the data section that a fresh data parser yields before it
/// first reports the end.
pub struct DecodedLog {
    pub main_fields: Seq<FieldView>,
    pub slow_fields: Seq<FieldView>,
    pub gps_fields: Option<Seq<FieldView>>,
    pub firmware: Seq<char>,
    pub craft_name: Option<Seq<char>>,
    pub board_info: Option<Seq<char>>,
    pub events: Seq<LogEvent>,
}

/// The outcome of decoding the `index`-th log of `data`: what the decoder
/// reads from it when its headers decode, else the debug text of the
/// decoder's error.
pub uninterp spec fn decoded_log(data: Seq<u8>, index: usize) -> Result<DecodedLog, Seq<char>>;

/// What the decoder reads from the log whose decoded headers these are.
pub uninterp spec fn decoded(headers: Headers) -> DecodedLog;

/// The items a data parser yields from its current state on before it first
/// reports the end, reading the loop iteration of an inter frame as one more
/// than the latest main frame's, modulo 2^32.
pub uninterp spec fn parser_events(parser: DataParser) -> Seq<LogEvent>;

/// The loop iteration of the latest main frame a data parser yielded; none
/// before the first.
pub uninterp spec fn parser_last_iteration(parser: DataParser) -> Option<u32>;

/// The time stamp of a main frame, in microseconds since power on.
pub uninterp spec fn main_frame_time(frame: MainFrame) -> u64;

/// The raw field values of a main frame, in field order.
pub uninterp spec fn main_frame_values(frame: MainFrame) -> Seq<u32>;

/// The raw field values of a slow frame, in field order.
pub uninterp spec fn slow_frame_values(frame: SlowFrame) -> Seq<u32>;

/// The raw field values of a GPS frame, in field order.
pub uninterp spec fn gps_frame_values(frame: GpsFrame) -> Seq<u32>;

/// Whether the rows of an item have as many values as its frame kind has
/// fields in `log` (and GPS items only occur where GPS fields are defined).
pub open spec fn fits_log(event: LogEvent, log: DecodedLog) -> bool {
    match event {
        LogEvent::Main { values, .. } => values.len() == log.main_fields.len(),
        LogEvent::Slow { values } => values.len() == log.slow_fields.len(),
        LogEvent::Gps { values } => match log.gps_fields {
            Some(fields) => values.len() == fields.len(),
            None => false,
        },
        LogEvent::Other => true,
    }
}

/// One step of a data parser, with the frame it yielded.
pub enum ParsedEvent<'data, 'headers, 'parser> {
    Main(MainFrame<'data, 'headers, 'parser>),
    Slow(SlowFrame<'data, 'headers, 'parser>),
    Gps(GpsFrame<'data, 'headers, 'parser>),
    Other,
    End,
}

/// The item a parser step yielded (`Other` for the end, which yields none).
pub open spec fn step_event(step: ParsedEvent) -> LogEvent {
    match step {
        ParsedEvent::Main(frame) => LogEvent::Main {
            time: main_frame_time(frame),
            values: main_frame_values(frame),
        },
        ParsedEvent::Slow(frame) => LogEvent::Slow { values: slow_frame_values(frame) },
        ParsedEvent::Gps(frame) => LogEvent::Gps { values: gps_frame_values(frame) },
        _ => LogEvent::Other,
    }
}

/// Whether a parser step yielded the item `event`.
pub open spec fn yields(step: ParsedEvent, event: LogEvent) -> bool {
    !(step is End) && event == step_event(step)
}

/// `File::new`: scans `bytes` for log markers.
#[verifier::external_body]
pub(crate) fn open_file<'data>(bytes: &'data [u8]) -> (file: File<'data>)
    ensures
        file_bytes(file) == bytes@,
{
    File::new(bytes)
}

/// `File::log_count`: the number of log markers found. The decoder collects
/// the non-overlapping occurrences of the marker; no two occurrences of this
/// marker can overlap, so that is every position at which it begins.
#[verifier::external_body]
pub(crate) fn log_count(file: &File) -> (count: usize)
    ensures
        count == marker_count(file_bytes(*file)),
{
    file.log_count()
}

/// The headers of one log of a file, a decoder error's debug text, or
/// nothing where the file has no such log.
pub type LogHeaders<'data> = Option<Result<Headers<'data>, String>>;

/// `File::parse`: decodes the headers of the `index`-th log. `None` when
/// there is no such log; a decoder error is handed back as its debug text.
/// Decoding panics on a buffer of `usize::MAX` bytes, which `requires`
/// leaves out.
#[verifier::external_body]
pub(crate) fn parse_log<'data>(file: &File<'data>, index: usize) -> (result: LogHeaders<'data>)
    requires
        file_bytes(*file).len() < usize::MAX,
    ensures
        result is Some <==> index < marker_count(file_bytes(*file)),
        result matches Some(Ok(headers)) ==> (decoded_log(file_bytes(*file), index) matches Ok(
            log,
        ) && log == decoded(headers)),
        result matches Some(Err(text)) ==> (decoded_log(file_bytes(*file), index) matches Err(
            reason,
        ) && reason == text@),
{
    match file.parse(index) {
        None => None,
        Some(Ok(headers)) => Some(Ok(headers)),
        Some(Err(error)) => Some(Err(format!("{error:?}"))),
    }
}

/// `FrameDef::len` of the main frame definition.
#[verifier::external_body]
pub(crate) fn main_field_count(headers: &Headers) -> (count: usize)
    ensures
        count == decoded(*headers).main_fields.len(),
{
    headers.main_frame_def().len()
}

/// `FrameDef::len` of the slow frame definition.
#[verifier::external_body]
pub(crate) fn slow_field_count(headers: &Headers) -> (count: usize)
    ensures
        count == decoded(*headers).slow_fields.len(),
{
    headers.slow_frame_def().len()
}

/// `FrameDef::len` of the GPS frame definition; 0 without GPS frames.
#[verifier::external_body]
pub(crate) fn gps_field_count(headers: &Headers) -> (count: usize)
    ensures
        decoded(*headers).gps_fields is None ==> count == 0,
        decoded(*headers).gps_fields matches Some(fields) ==> count == fields.len(),
{
    match headers.gps_frame_def() {
        Some(def) => def.len(),
        None => 0,
    }
}

/// `FrameDef::get` on the main frame definition: the `index`-th field, with
/// its unit as `Unit::from` maps it.
#[verifier::external_body]
pub(crate) fn main_field(headers: &Headers, index: usize) -> (field: Option<FieldInfo>)
    ensures
        field is Some <==> index < decoded(*headers).main_fields.len(),
        field matches Some(f) ==> f@ == decoded(*headers).main_fields[index as int],
{
    let def = headers.main_frame_def().get(index)?;
    let unit = match def.unit {
        MainUnit::Amperage => FieldUnit::Amperage,
        MainUnit::Voltage => FieldUnit::Voltage,
        MainUnit::Acceleration => FieldUnit::Acceleration,
        MainUnit::Rotation => FieldUnit::Rotation,
        MainUnit::Unitless => FieldUnit::Unitless,
    };
    Some(FieldInfo { name: def.name.to_string(), signed: def.signed, unit })
}

/// `FrameDef::get` on the slow frame definition: the `index`-th field, with
/// its unit as `Unit::from` maps it.
#[verifier::external_body]
pub(crate) fn slow_field(headers: &Headers, index: usize) -> (field: Option<FieldInfo>)
    ensures
        field is Some <==> index < decoded(*headers).slow_fields.len(),
        field matches Some(f) ==> f@ == decoded(*headers).slow_fields[index as int],
{
    let def = headers.slow_frame_def().get(index)?;
    let unit = match def.unit {
        SlowUnit::FlightMode => FieldUnit::FlightMode,
        SlowUnit::State => FieldUnit::State,
        SlowUnit::FailsafePhase => FieldUnit::FailsafePhase,
        SlowUnit::Boolean => FieldUnit::Boolean,
        SlowUnit::Unitless => FieldUnit::Unitless,
    };
    Some(FieldInfo { name: def.name.to_string(), signed: def.signed, unit })
}

/// `Headers::gps_frame_def`: whether the log defines GPS frames.
#[verifier::external_body]
pub(crate) fn has_gps_fields(headers: &Headers) -> (present: bool)
    ensures
        present == decoded(*headers).gps_fields is Some,
{
    headers.gps_frame_def().is_some()
}

/// `FrameDef::get` on the GPS frame definition: the `index`-th field, with
/// its unit as `Unit::from` maps it; `None` when the log has no GPS frames.
#[verifier::external_body]
pub(crate) fn gps_field(headers: &Headers, index: usize) -> (field: Option<FieldInfo>)
    ensures
        decoded(*headers).gps_fields is None ==> field is None,
        decoded(*headers).gps_fields matches Some(fields) ==> {
            &&& field is Some <==> index < fields.len()
            &&& field matches Some(f) ==> f@ == fields[index as int]
        },
{
    let def = headers.gps_frame_def()?.get(index)?;
    let unit = match def.unit {
        GpsUnit::Coordinate => FieldUnit::GpsCoordinate,
        GpsUnit::Altitude => FieldUnit::Altitude,
        GpsUnit::Velocity => FieldUnit::Velocity,
        GpsUnit::Heading => FieldUnit::GpsHeading,
        GpsUnit::Unitless => FieldUnit::Unitless,
    };
    Some(FieldInfo { name: def.name.to_string(), signed: def.signed, unit })
}

/// `Headers::firmware`, as its debug text.
#[verifier::external_body]
pub(crate) fn firmware_text(headers: &Headers) -> (text: String)
    ensures
        text@ == decoded(*headers).firmware,
{
    format!("{:?}", headers.firmware())
}

/// `Headers::craft_name`.
#[verifier::external_body]
pub(crate) fn craft_name(headers: &Headers) -> (name: Option<String>)
    ensures
        name is Some <==> decoded(*headers).craft_name is Some,
        name matches Some(n) ==> decoded(*headers).craft_name == Some(n@),
{
    headers.craft_name().map(|name| name.to_string())
}

/// `Headers::board_info`.
#[verifier::external_body]
pub(crate) fn board_info(headers: &Headers) -> (info: Option<String>)
    ensures
        info is Some <==> decoded(*headers).board_info is Some,
        info matches Some(i) ==> decoded(*headers).board_info == Some(i@),
{
    headers.board_info().map(|info| info.to_string())
}

/// `Headers::data_parser`: a parser over the data section with no field
/// filter. Every item it yields consumes at least one byte of the section,
/// so there are fewer items than `usize::MAX`; unfiltered frames carry one
/// value per defined field, and GPS frames only occur where GPS fields are
/// defined.
#[verifier::external_body]
pub(crate) fn data_parser<'data, 'headers>(
    headers: &'headers Headers<'data>,
) -> (parser: DataParser<'data, 'headers>)
    ensures
        parser_events(parser) == decoded(*headers).events,
        parser_events(parser).len() < usize::MAX,
        parser_last_iteration(parser) is None,
        forall|k: int|
            0 <= k < parser_events(parser).len() ==> fits_log(
                #[trigger] parser_events(parser)[k],
                decoded(*headers),
            ),
{
    headers.data_parser()
}

/// `DataParser::next`: the next item of the data section, or `End` where the
/// parser reports the end. A main frame's first value is its loop iteration.
/// The decoder computes an inter frame's loop iteration as one more than the
/// latest main frame's with an unchecked `u32` addition, which panics (where
/// overflow checks are on) once that iteration is `u32::MAX`; `requires`
/// leaves that state out, and in every other state the call cannot panic.
#[verifier::external_body]
pub(crate) fn next_event<'data, 'headers, 'parser>(
    parser: &'parser mut DataParser<'data, 'headers>,
) -> (step: ParsedEvent<'data, 'headers, 'parser>)
    requires
        parser_last_iteration(*old(parser)) != Some(u32::MAX),
    ensures
        step matches ParsedEvent::Main(frame) ==> (main_frame_values(frame).len() > 0
            && parser_last_iteration(*final(parser)) == Some(main_frame_values(frame)[0])),
        !(step is Main) ==> parser_last_iteration(*final(parser)) == parser_last_iteration(
            *old(parser),
        ),
        parser_events(*old(parser)).len() == 0 ==> step is End,
        parser_events(*old(parser)).len() > 0 ==> {
            &&& yields(step, parser_events(*old(parser))[0])
            &&& parser_events(*final(parser)) == parser_events(*old(parser)).drop_first()
        },
{
    match parser.next() {
        None => ParsedEvent::End,
        Some(ParserEvent::Main(frame)) => ParsedEvent::Main(frame),
        Some(ParserEvent::Slow(frame)) => ParsedEvent::Slow(frame),
        Some(ParserEvent::Gps(frame)) => ParsedEvent::Gps(frame),
        Some(ParserEvent::Event(_)) => ParsedEvent::Other,
    }
}

/// `MainFrame::time_raw`.
#[verifier::external_body]
pub(crate) fn main_time_raw(frame: &MainFrame) -> (time: u64)
    ensures
        time == main_frame_time(*frame),
{
    frame.time_raw()
}

/// `Frame::len` of a main frame.
#[verifier::external_body]
pub(crate) fn main_len(frame: &MainFrame) -> (len: usize)
    ensures
        len == main_frame_values(*frame).len(),
{
    frame.len()
}

/// `Frame::get_raw` of a main frame.
#[verifier::external_body]
pub(crate) fn main_raw(frame: &MainFrame, index: usize) -> (raw: Option<u32>)
    ensures
        raw == (if index < main_frame_values(*frame).len() {
            Some(main_frame_values(*frame)[index as int])
        } else {
            None
        }),
{
    frame.get_raw(index)
}

/// `Frame::len` of a slow frame.
#[verifier::external_body]
pub(crate) fn slow_len(frame: &SlowFrame) -> (len: usize)
    ensures
        len == slow_frame_values(*frame).len(),
{
    frame.len()
}

/// `Frame::get_raw` of a slow frame.
#[verifier::external_body]
pub(crate) fn slow_raw(frame: &SlowFrame, index: usize) -> (raw: Option<u32>)
    ensures
        raw == (if index < slow_frame_values(*frame).len() {
            Some(slow_frame_values(*frame)[index as int])
        } else {
            None
        }),
{
    frame.get_raw(index)
}

/// `Frame::len` of a GPS frame.
#[verifier::external_body]
pub(crate) fn gps_len(frame: &GpsFrame) -> (len: usize)
    ensures
        len == gps_frame_values(*frame).len(),
{
    frame.len()
}

/// `Frame::get_raw` of a GPS frame.
#[verifier::external_body]
pub(crate) fn gps_raw(frame: &GpsFrame, index: usize) -> (raw: Option<u32>)
    ensures
        raw == (if index < gps_frame_values(*frame).len() {
            Some(gps_frame_values(*frame)[index as int])
        } else {
            None
        }),
{
    frame.get_raw(index)
}

} // verus!
