use blackbox_parser::{
    push_raw_values, unit_label, unpack_fields, widen_raw, FieldInfo, FieldUnit, FrameEvent,
    FrameRecorder,
};

fn main_event(time: u64, values: &[u32]) -> FrameEvent {
    FrameEvent::Main { time, values: values.iter().map(|v| Some(*v)).collect() }
}

fn slow_event(values: &[u32]) -> FrameEvent {
    FrameEvent::Slow { values: values.iter().map(|v| Some(*v)).collect() }
}

fn gps_event(values: &[u32]) -> FrameEvent {
    FrameEvent::Gps { values: values.iter().map(|v| Some(*v)).collect() }
}

#[test]
fn widen_reads_signed_as_i32() {
    assert_eq!(widen_raw(0xFFFF_FFFB, true), -5);
    assert_eq!(widen_raw(0xFFFF_FFFB, false), 4_294_967_291);
    assert_eq!(widen_raw(0x8000_0000, true), i32::MIN as i64);
    assert_eq!(widen_raw(7, true), 7);
}

#[test]
fn push_raw_values_appends_widened_row() {
    let mut out = vec![Some(9)];
    let row = vec![Some(0xFFFF_FFFF), Some(0xFFFF_FFFF), None, Some(3)];
    push_raw_values(&row, &vec![true, false, true], &mut out);
    // the fourth column has no flag and reads as unsigned; a missing value stays missing
    assert_eq!(out, vec![Some(9), Some(-1), Some(4_294_967_295), None, Some(3)]);
}

#[test]
fn recorder_keeps_every_stride_th_main_frame() {
    let mut rec = FrameRecorder::new(3, vec![false], vec![], vec![], false);
    for t in 0..7u64 {
        rec.record(main_event(100 * t, &[t as u32]));
    }
    let (main, _, _) = rec.into_series();
    assert_eq!(main.times, vec![0, 300, 600]);
    assert_eq!(main.values, vec![Some(0), Some(3), Some(6)]);
}

#[test]
fn recorder_stride_zero_keeps_all() {
    let mut rec = FrameRecorder::new(0, vec![], vec![], vec![], false);
    for t in 0..4u64 {
        rec.record(main_event(t, &[]));
    }
    let (main, _, _) = rec.into_series();
    assert_eq!(main.times, vec![0, 1, 2, 3]);
}

#[test]
fn slow_frames_use_latest_main_time_even_if_skipped() {
    let mut rec = FrameRecorder::new(2, vec![false], vec![true], vec![false], true);
    rec.record(slow_event(&[1]));
    rec.record(main_event(10, &[1]));
    rec.record(main_event(20, &[2]));
    rec.record(slow_event(&[0xFFFF_FFFE]));
    rec.record(gps_event(&[5]));
    rec.record(FrameEvent::Other);
    let (main, slow, gps) = rec.into_series();
    assert_eq!(main.times, vec![10]);
    assert_eq!(slow.times, vec![0, 20]);
    assert_eq!(slow.values, vec![Some(1), Some(-2)]);
    assert_eq!(gps.times, vec![20]);
    assert_eq!(gps.values, vec![Some(5)]);
}

#[test]
fn gps_frames_are_dropped_without_gps_definition() {
    let mut rec = FrameRecorder::new(1, vec![], vec![], vec![], false);
    rec.record(main_event(10, &[]));
    rec.record(gps_event(&[5, 6]));
    let (_, _, gps) = rec.into_series();
    assert!(gps.times.is_empty());
    assert!(gps.values.is_empty());
}

#[test]
fn other_events_change_nothing() {
    let mut rec = FrameRecorder::new(1, vec![], vec![], vec![], true);
    rec.record(FrameEvent::Other);
    rec.record(slow_event(&[4]));
    let (main, slow, gps) = rec.into_series();
    assert!(main.times.is_empty());
    assert_eq!(slow.times, vec![0]);
    assert!(gps.times.is_empty());
}

#[test]
fn unit_labels_are_variant_names() {
    assert_eq!(unit_label(FieldUnit::Voltage), "Voltage");
    assert_eq!(unit_label(FieldUnit::GpsCoordinate), "GpsCoordinate");
    assert_eq!(unit_label(FieldUnit::FailsafePhase), "FailsafePhase");
    assert_eq!(unit_label(FieldUnit::Unitless), "Unitless");
}

#[test]
fn unpack_fields_splits_into_parallel_arrays() {
    let fields = vec![
        FieldInfo { name: "vbat".to_string(), signed: false, unit: FieldUnit::Voltage },
        FieldInfo { name: "gyroADC[0]".to_string(), signed: true, unit: FieldUnit::Rotation },
    ];
    let (names, signed, units) = unpack_fields(&fields);
    assert_eq!(names, vec!["vbat".to_string(), "gyroADC[0]".to_string()]);
    assert_eq!(signed, vec![0, 1]);
    assert_eq!(units, vec!["Voltage".to_string(), "Rotation".to_string()]);
}
