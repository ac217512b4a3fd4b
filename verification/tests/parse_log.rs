use blackbox_parser::{parse_blackbox, ParseFailure};

const HEADERS: &str = "H Product:Blackbox flight data recorder by Nicholas Sherlock\n\
H Data version:2\n\
H Firmware revision:INAV 8.0.0 (ec2106af) MATEKF405\n\
H Board information: MATEKF405 \n\
H Craft name:Dolphin\n\
H motor_pwm_protocol:0\n\
H Field I name:loopIteration,time,vbat,rcCommand[0]\n\
H Field I signed:0,0,0,1\n\
H Field I predictor:0,0,0,0\n\
H Field I encoding:1,1,1,0\n\
H Field P predictor:6,2,1,1\n\
H Field P encoding:9,0,0,0\n\
H Field S name:flightModeFlags,rxSignalReceived\n\
H Field S signed:0,0\n\
H Field S predictor:0,0\n\
H Field S encoding:1,1\n\
H Field G name:time,GPS_numSat,GPS_coord[0]\n\
H Field G signed:0,0,1\n\
H Field G predictor:10,0,0\n\
H Field G encoding:1,1,0\n";

const HEADERS_NO_GPS: &str = "H Product:Blackbox flight data recorder by Nicholas Sherlock\n\
H Data version:2\n\
H Firmware revision:Betaflight 4.4.2 (8d4f005) STM32F7X2\n\
H motor_pwm_protocol:0\n\
H Field I name:loopIteration,time,vbat\n\
H Field I signed:0,0,0\n\
H Field I predictor:0,0,0\n\
H Field I encoding:1,1,1\n\
H Field P predictor:6,2,1\n\
H Field P encoding:9,0,0\n\
H Field S name:flightModeFlags\n\
H Field S signed:0\n\
H Field S predictor:0\n\
H Field S encoding:1\n";

/// An intra frame (t = 1000 us, vbat 1650, rcCommand -5), a slow frame, a
/// GPS frame, and two inter frames (t = 1500 and 2000 us).
fn data() -> Vec<u8> {
    vec![
        b'I', 0x00, 0xE8, 0x07, 0xF2, 0x0C, 0x09, // main: it 0, t 1000, vbat 1650, rc -5
        b'S', 0x03, 0x01, // slow: modes 3, rx 1
        b'G', 0x05, 0x07, 0xF5, 0x01, // gps: +5 us, 7 sats, coord -123
        b'P', 0xE8, 0x07, 0x03, 0x0E, // main: t +500, vbat -2, rc +7
        b'P', 0x00, 0x00, 0x00, // main: t on the line, no change
    ]
}

fn log_bytes() -> Vec<u8> {
    let mut bytes = HEADERS.as_bytes().to_vec();
    bytes.extend(data());
    bytes
}

fn strings(v: &[&str]) -> Vec<String> {
    v.iter().map(|s| s.to_string()).collect()
}

#[test]
fn parses_header_strings() {
    let log = parse_blackbox(&log_bytes(), 1).ok().expect("a log");
    assert_eq!(log.firmware(), "Inav(FirmwareVersion { major: 8, minor: 0, patch: 0 })");
    assert_eq!(log.craft_name(), "Dolphin");
    assert_eq!(log.board_info(), "MATEKF405");
    assert!(log.has_gps());
}

#[test]
fn parses_field_metadata() {
    let log = parse_blackbox(&log_bytes(), 1).ok().expect("a log");
    assert_eq!(log.main_field_names(), strings(&["loopIteration", "vbat", "rcCommand[0]"]));
    assert_eq!(log.main_field_signed(), vec![0, 0, 1]);
    assert_eq!(log.main_field_units(), strings(&["Unitless", "Voltage", "Unitless"]));
    assert_eq!(log.main_cols(), 3);
    assert_eq!(log.slow_field_names(), strings(&["flightModeFlags", "rxSignalReceived"]));
    assert_eq!(log.slow_field_signed(), vec![0, 0]);
    assert_eq!(log.slow_field_units(), strings(&["FlightMode", "Boolean"]));
    assert_eq!(log.slow_cols(), 2);
    assert_eq!(log.gps_field_names(), strings(&["GPS_numSat", "GPS_coord[0]"]));
    assert_eq!(log.gps_field_signed(), vec![0, 1]);
    assert_eq!(log.gps_field_units(), strings(&["Unitless", "GpsCoordinate"]));
    assert_eq!(log.gps_cols(), 2);
}

#[test]
fn parses_every_main_frame_with_stride_one() {
    let log = parse_blackbox(&log_bytes(), 1).ok().expect("a log");
    assert_eq!(log.main_times(), vec![1000, 1500, 2000]);
    assert_eq!(
        log.main_frames(),
        vec![Some(0), Some(1650), Some(-5), Some(1), Some(1648), Some(2), Some(2), Some(1648), Some(2)]
    );
}

#[test]
fn stride_zero_keeps_every_main_frame() {
    let log = parse_blackbox(&log_bytes(), 0).ok().expect("a log");
    assert_eq!(log.main_times(), vec![1000, 1500, 2000]);
}

#[test]
fn stride_two_keeps_every_other_main_frame() {
    let log = parse_blackbox(&log_bytes(), 2).ok().expect("a log");
    assert_eq!(log.main_times(), vec![1000, 2000]);
    assert_eq!(log.main_frames(), vec![Some(0), Some(1650), Some(-5), Some(2), Some(1648), Some(2)]);
    // slow and GPS frames stay at full rate
    assert_eq!(log.slow_times(), vec![1000]);
    assert_eq!(log.gps_times(), vec![1000]);
}

#[test]
fn slow_and_gps_frames_take_the_latest_main_time() {
    let log = parse_blackbox(&log_bytes(), 1).ok().expect("a log");
    assert_eq!(log.slow_times(), vec![1000]);
    assert_eq!(log.slow_frames(), vec![Some(3), Some(1)]);
    assert_eq!(log.gps_times(), vec![1000]);
    assert_eq!(log.gps_frames(), vec![Some(7), Some(-123)]);
}

#[test]
fn rows_are_row_major() {
    let log = parse_blackbox(&log_bytes(), 1).ok().expect("a log");
    let cols = log.main_cols();
    let frames = log.main_frames();
    assert_eq!(frames.len(), log.main_times().len() * cols);
    // field 1 (vbat) of row 1
    assert_eq!(frames[1 * cols + 1], Some(1648));
}

#[test]
fn log_without_gps_has_empty_gps_stream() {
    let mut bytes = HEADERS_NO_GPS.as_bytes().to_vec();
    bytes.extend([b'I', 0x00, 0x64, 0x10, b'S', 0x00]);
    let log = parse_blackbox(&bytes, 1).ok().expect("a log");
    assert!(!log.has_gps());
    assert!(log.gps_field_names().is_empty());
    assert!(log.gps_field_signed().is_empty());
    assert!(log.gps_field_units().is_empty());
    assert_eq!(log.gps_cols(), 0);
    assert!(log.gps_times().is_empty());
    assert!(log.gps_frames().is_empty());
    assert_eq!(log.firmware(), "Betaflight(FirmwareVersion { major: 4, minor: 4, patch: 2 })");
    assert_eq!(log.craft_name(), "");
    assert_eq!(log.board_info(), "");
    assert_eq!(log.main_times(), vec![100]);
    assert_eq!(log.main_frames(), vec![Some(0), Some(16)]);
    assert_eq!(log.slow_times(), vec![100]);
}

#[test]
fn only_the_first_log_is_read() {
    let mut bytes = log_bytes();
    let mut second = HEADERS_NO_GPS.as_bytes().to_vec();
    second.extend([b'I', 0x00, 0x64, 0x10]);
    bytes.extend(second);
    let log = parse_blackbox(&bytes, 1).ok().expect("a log");
    assert_eq!(log.craft_name(), "Dolphin");
    assert_eq!(log.main_times(), vec![1000, 1500, 2000]);
}

#[test]
fn buffer_without_marker_is_no_log() {
    let result = parse_blackbox(b"this is not a blackbox log", 1);
    match result {
        Err(failure) => {
            assert!(matches!(failure, ParseFailure::NoLog));
            assert_eq!(
                failure.message(),
                "No valid log found in buffer. Is this actually a blackbox file?"
            );
        }
        Ok(_) => panic!("expected a failure"),
    }
}

#[test]
fn empty_buffer_is_no_log() {
    assert!(matches!(parse_blackbox(&[], 1), Err(ParseFailure::NoLog)));
}

#[test]
fn unsupported_data_version_is_invalid_headers() {
    let bytes = b"H Product:Blackbox flight data recorder by Nicholas Sherlock\nH Data version:1\n";
    match parse_blackbox(bytes, 1) {
        Err(failure) => {
            assert!(matches!(&failure, ParseFailure::InvalidHeaders(reason) if reason == "UnsupportedDataVersion"));
            assert_eq!(failure.message(), "Header parse error: UnsupportedDataVersion");
        }
        Ok(_) => panic!("expected a failure"),
    }
}

#[test]
fn missing_headers_message() {
    assert_eq!(ParseFailure::MissingHeaders.message(), "Failed to read first log's headers");
}

#[test]
fn log_after_leading_garbage_is_found() {
    let mut bytes = b"\x00\x01garbage before the log\n".to_vec();
    bytes.extend(log_bytes());
    let log = parse_blackbox(&bytes, 1).ok().expect("a log");
    assert_eq!(log.main_times(), vec![1000, 1500, 2000]);
}

#[test]
fn read_log_reads_decoded_headers() {
    let bytes = log_bytes();
    let file = blackbox_log::File::new(&bytes);
    let headers = file.parse(0).expect("a log").expect("valid headers");
    let log = blackbox_parser::read_log(&headers, 3);
    assert_eq!(log.main_times(), vec![1000]);
    assert_eq!(log.main_frames(), vec![Some(0), Some(1650), Some(-5)]);
    assert_eq!(log.slow_frames(), vec![Some(3), Some(1)]);
    assert_eq!(log.gps_frames(), vec![Some(7), Some(-123)]);
    assert_eq!(log.craft_name(), "Dolphin");
}

#[test]
fn logged_events_do_not_reach_the_log() {
    let mut with_events = HEADERS.as_bytes().to_vec();
    let frames = data();
    // a sync beep after the intra frame, a flight mode change after the GPS frame
    with_events.extend(&frames[..7]);
    with_events.extend([b'E', 0x00, 0x05]);
    with_events.extend(&frames[7..15]);
    with_events.extend([b'E', 30, 0x01, 0x00]);
    with_events.extend(&frames[15..]);
    with_events.extend(b"E\xffEnd of log\x00");
    let plain = parse_blackbox(&log_bytes(), 1).ok().expect("a log");
    let log = parse_blackbox(&with_events, 1).ok().expect("a log");
    assert_eq!(log.main_times(), plain.main_times());
    assert_eq!(log.main_frames(), plain.main_frames());
    assert_eq!(log.slow_times(), plain.slow_times());
    assert_eq!(log.slow_frames(), plain.slow_frames());
    assert_eq!(log.gps_times(), plain.gps_times());
    assert_eq!(log.gps_frames(), plain.gps_frames());
}

#[test]
fn reading_stops_after_the_last_numbered_main_frame() {
    let mut bytes = HEADERS.as_bytes().to_vec();
    // intra frame numbered u32::MAX (t = 100 us, vbat 16, rc 0), then a slow
    // frame and an inter frame that the decoder could not number
    bytes.extend([b'I', 0xFF, 0xFF, 0xFF, 0xFF, 0x0F, 0x64, 0x10, 0x00]);
    bytes.extend([b'S', 0x03, 0x01]);
    bytes.extend([b'P', 0x02, 0x00, 0x00]);
    let log = parse_blackbox(&bytes, 1).ok().expect("a log");
    assert_eq!(log.main_times(), vec![100]);
    assert_eq!(log.main_frames(), vec![Some(4_294_967_295), Some(16), Some(0)]);
    assert!(log.slow_times().is_empty());
}

#[test]
fn frames_before_the_last_numbered_main_frame_are_read() {
    let mut bytes = HEADERS.as_bytes().to_vec();
    bytes.extend([b'I', 0x00, 0x64, 0x10, 0x00]);
    bytes.extend([b'S', 0x03, 0x01]);
    bytes.extend([b'I', 0xFF, 0xFF, 0xFF, 0xFF, 0x0F, 0xC8, 0x01, 0x11, 0x00]);
    let log = parse_blackbox(&bytes, 1).ok().expect("a log");
    assert_eq!(log.main_times(), vec![100, 200]);
    assert_eq!(log.slow_times(), vec![100]);
}
