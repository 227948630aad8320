use video_cropper::format_time;

/// Reads `HH:MM:SS.mmm` back into milliseconds.
fn read_back(t: &str) -> u64 {
    let (hms, frac) = t.split_once('.').unwrap();
    let fields: Vec<u64> = hms.split(':').map(|f| f.parse().unwrap()).collect();
    assert_eq!(fields.len(), 3);
    assert_eq!(frac.len(), 3);
    fields[0] * 3_600_000 + fields[1] * 60_000 + fields[2] * 1000 + frac.parse::<u64>().unwrap()
}

#[test]
fn format_time_zero() {
    assert_eq!(format_time(0), "00:00:00.000");
}

#[test]
fn format_time_hour_minute_second_half() {
    assert_eq!(format_time(3_661_500), "01:01:01.500");
}

#[test]
fn format_time_pads_every_field() {
    assert_eq!(format_time(7), "00:00:00.007");
    assert_eq!(format_time(61_050), "00:01:01.050");
    assert_eq!(format_time(35_999_999), "09:59:59.999");
}

#[test]
fn format_time_hours_beyond_two_digits() {
    assert_eq!(format_time(359_999_999), "99:59:59.999");
    assert_eq!(format_time(360_000_000), "100:00:00.000");
}

#[test]
fn format_time_largest_value() {
    assert_eq!(format_time(u64::MAX), "5124095576030:25:51.615");
}

#[test]
fn format_time_round_trips() {
    for ms in [0u64, 1, 999, 1000, 59_999, 60_000, 3_599_999, 3_600_000, 86_399_999, 359_999_999] {
        assert_eq!(read_back(&format_time(ms)), ms);
    }
}

#[test]
fn format_time_round_trips_from_seconds() {
    for s in [0.0f64, 0.001, 1.25, 59.9994, 3661.5, 12345.678, 359999.999] {
        let ms = (s * 1000.0).round() as u64;
        let back = read_back(&format_time(ms)) as f64 / 1000.0;
        assert!((back - s).abs() <= 0.001, "{} came back as {}", s, back);
    }
}
