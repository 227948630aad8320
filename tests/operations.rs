use video_cropper::{
    check_crop, crop_args, crop_command, crop_result, format_time, metadata_from_output,
    probe_args, probe_result, select_file, Decimal, FrameRate, ProbeFormat, ProbeOutput, ProbeStream,
    RunOutcome, SelectionState, SignedDecimal, VideoError,
};

fn report(rates: &[&str], duration: &str) -> ProbeOutput {
    ProbeOutput {
        streams: rates
            .iter()
            .map(|r| ProbeStream { avg_frame_rate: r.to_string() })
            .collect(),
        format: ProbeFormat { duration: duration.to_string() },
    }
}

fn whole(negative: bool, mantissa: u64) -> SignedDecimal {
    SignedDecimal { negative, magnitude: Decimal { mantissa, scale: 0 } }
}

fn rate(num: u64, den: u64) -> FrameRate {
    FrameRate { num: whole(false, num), den: whole(false, den) }
}

fn exited(code: i32) -> RunOutcome {
    RunOutcome::Exited { code: Some(code), stderr: String::new() }
}

fn selected(path: &str) -> SelectionState {
    let mut s = SelectionState::new();
    s.set(path.to_string());
    s
}

#[test]
fn selection_last_write_wins() {
    let mut s = SelectionState::new();
    assert_eq!(s.get(), None);
    s.set("a.mp4".to_string());
    s.set("b.mkv".to_string());
    assert_eq!(s.get(), Some("b.mkv".to_string()));
}

#[test]
fn select_cancelled_keeps_selection() {
    let mut s = selected("old.mp4");
    assert!(matches!(select_file(&mut s, None), Err(VideoError::Cancelled)));
    assert!(matches!(select_file(&mut s, Some(String::new())), Err(VideoError::Cancelled)));
    assert_eq!(s.get(), Some("old.mp4".to_string()));
}

#[test]
fn select_sets_selection() {
    let mut s = SelectionState::new();
    assert_eq!(select_file(&mut s, Some("/v/clip.mp4".to_string())).unwrap(), "/v/clip.mp4");
    assert_eq!(s.get(), Some("/v/clip.mp4".to_string()));
}

#[test]
fn probe_args_name_the_file() {
    let args = probe_args("/v/clip.mp4");
    assert_eq!(
        args,
        vec![
            "-v", "error", "-select_streams", "v:0", "-show_entries", "format=duration",
            "-show_entries", "stream=avg_frame_rate", "-of", "json", "/v/clip.mp4",
        ]
    );
}

#[test]
fn metadata_from_good_report() {
    let m = metadata_from_output("/v/clip.mp4", &report(&["30000/1001"], "10.010000")).unwrap();
    assert_eq!(m.file_path, "/v/clip.mp4");
    assert_eq!(m.duration, Decimal { mantissa: 10_010_000, scale: 6 });
    assert_eq!(m.fps, rate(30000, 1001));
}

#[test]
fn metadata_uses_first_stream() {
    let m = metadata_from_output("x", &report(&["25/1", "0/0"], "1")).unwrap();
    assert_eq!(m.fps, rate(25, 1));
}

#[test]
fn metadata_keeps_sub_millisecond_duration() {
    let m = metadata_from_output("x", &report(&["24/1"], "2.0005")).unwrap();
    assert_eq!(m.duration, Decimal { mantissa: 20_005, scale: 4 });
}

#[test]
fn metadata_decimal_frame_rate() {
    let m = metadata_from_output("x", &report(&["1.5/1"], "4")).unwrap();
    assert_eq!(m.fps.num.magnitude, Decimal { mantissa: 15, scale: 1 });
}

#[test]
fn metadata_negative_over_negative_is_positive() {
    let m = metadata_from_output("x", &report(&["-30/-1"], "4")).unwrap();
    assert_eq!(m.fps, FrameRate { num: whole(true, 30), den: whole(true, 1) });
}

#[test]
fn metadata_zero_frame_rate_is_invalid() {
    for r in ["0/1", "0.0/25", "-0/-1", "-30/1", "30/-1"] {
        match metadata_from_output("x", &report(&[r], "3.0")) {
            Err(VideoError::InvalidFrameRate(t)) => assert_eq!(t, r),
            other => panic!("{:?}", other),
        }
    }
}

#[test]
fn metadata_empty_streams_is_no_video_stream() {
    let r = metadata_from_output("x", &report(&[], "12.5"));
    assert!(matches!(r, Err(VideoError::NoVideoStream)));
}

#[test]
fn metadata_bad_duration_is_malformed() {
    let r = metadata_from_output("x", &report(&["25/1"], "N/A"));
    assert!(matches!(r, Err(VideoError::MalformedOutput)));
}

#[test]
fn metadata_bad_rate_is_invalid_frame_rate() {
    match metadata_from_output("x", &report(&["0/0"], "3.0")) {
        Err(VideoError::InvalidFrameRate(t)) => assert_eq!(t, "0/0"),
        other => panic!("{:?}", other),
    }
}

#[test]
fn probe_tool_missing() {
    let r = probe_result("x", RunOutcome::NotStarted, None);
    assert!(matches!(r, Err(VideoError::ToolUnavailable)));
}

#[test]
fn probe_tool_failed() {
    let outcome = RunOutcome::Exited { code: Some(1), stderr: "no such file".to_string() };
    match probe_result("x", outcome, Some(report(&["25/1"], "1"))) {
        Err(VideoError::ProbeFailed { code, stderr }) => {
            assert_eq!(code, Some(1));
            assert_eq!(stderr, "no such file");
        }
        other => panic!("{:?}", other),
    }
    let killed = RunOutcome::Exited { code: None, stderr: String::new() };
    assert!(matches!(
        probe_result("x", killed, None),
        Err(VideoError::ProbeFailed { code: None, .. })
    ));
}

#[test]
fn probe_unreadable_report() {
    assert!(matches!(probe_result("x", exited(0), None), Err(VideoError::MalformedOutput)));
}

#[test]
fn probe_empty_streams_never_panics() {
    let r = probe_result("x", exited(0), Some(report(&[], "5.000000")));
    assert!(matches!(r, Err(VideoError::NoVideoStream)));
}

#[test]
fn probe_success() {
    let m = probe_result("a.mov", exited(0), Some(report(&["24/1"], "2.5"))).unwrap();
    assert_eq!(m.file_path, "a.mov");
    assert_eq!(m.duration, Decimal { mantissa: 25, scale: 1 });
    assert_eq!(m.fps, rate(24, 1));
}

#[test]
fn crop_reversed_range_is_invalid_range() {
    let empty = SelectionState::new();
    let full = selected("a.mp4");
    for s in [&empty, &full] {
        assert!(matches!(check_crop(s, 10_000, 5_000), Err(VideoError::InvalidRange)));
        assert!(matches!(
            crop_command(s, 10_000, 5_000, Some("out.mp4".to_string())),
            Err(VideoError::InvalidRange)
        ));
        assert!(matches!(crop_command(s, 5_000, 5_000, None), Err(VideoError::InvalidRange)));
    }
}

#[test]
fn crop_without_selection_is_no_selection() {
    let s = SelectionState::new();
    assert!(matches!(check_crop(&s, 0, 5_000), Err(VideoError::NoSelection)));
    assert!(matches!(
        crop_command(&s, 0, 5_000, Some("out.mp4".to_string())),
        Err(VideoError::NoSelection)
    ));
}

#[test]
fn crop_without_destination() {
    let s = selected("a.mp4");
    assert!(matches!(crop_command(&s, 0, 1, None), Err(VideoError::NoDestinationSelected)));
    assert!(matches!(
        crop_command(&s, 0, 1, Some(String::new())),
        Err(VideoError::NoDestinationSelected)
    ));
}

#[test]
fn crop_arguments() {
    let args = crop_args("in.mkv", 61_250, 3_722_750, "out.mp4");
    assert_eq!(
        args,
        vec![
            "-ss", "00:01:01.250", "-i", "in.mkv", "-t", "01:01:01.500", "-c", "copy", "out.mp4",
            "-y",
        ]
    );
    let s = selected("in.mkv");
    assert_eq!(crop_command(&s, 61_250, 3_722_750, Some("out.mp4".to_string())).unwrap(), args);
}

#[test]
fn crop_outcomes() {
    assert_eq!(crop_result("out.mp4".to_string(), exited(0)).unwrap(), "out.mp4");
    assert!(matches!(
        crop_result("out.mp4".to_string(), exited(1)),
        Err(VideoError::CropFailed { code: Some(1) })
    ));
    assert!(matches!(
        crop_result("out.mp4".to_string(), RunOutcome::NotStarted),
        Err(VideoError::ToolUnavailable)
    ));
}

#[test]
fn select_probe_crop_end_to_end() {
    let mut state = SelectionState::new();
    let path = select_file(&mut state, Some("/v/movie.mp4".to_string())).unwrap();
    assert_eq!(state.get(), Some("/v/movie.mp4".to_string()));
    let m = probe_result(&path, exited(0), Some(report(&["30000/1001"], "125.458000"))).unwrap();
    assert_eq!(m.file_path, "/v/movie.mp4");
    assert_eq!(m.duration, Decimal { mantissa: 125_458_000, scale: 6 });
    assert_eq!(m.fps, rate(30000, 1001));
    let seconds = m.duration.mantissa as f64 * 10f64.powf(-(m.duration.scale as f64));
    let half = (seconds / 2.0 * 1000.0).floor() as u64;
    assert_eq!(half, 62_729);
    let args = crop_command(&state, 0, half, Some("/v/half.mp4".to_string())).unwrap();
    assert_eq!(args[1], "00:00:00.000");
    assert_eq!(args[3], "/v/movie.mp4");
    assert_eq!(args[5], format_time(half));
    assert_eq!(args[5], "00:01:02.729");
    assert_eq!(crop_result("/v/half.mp4".to_string(), exited(0)).unwrap(), "/v/half.mp4");
}
