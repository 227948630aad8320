//! Turning the probing tool's report on a file into video metadata.

use crate::error::VideoError;
use crate::numeral::{fits_number, number_of, parse_number, Decimal};
use crate::outcome::{texts, RunOutcome};
use crate::rate::{parse_fps, rate_parts, valid_rate, FrameRate};
use vstd::prelude::*;

verus! {

/// One stream of the probing tool's report.
#[derive(Debug)]
pub struct ProbeStream {
    /// The average frame rate, as `N/D` text.
    pub avg_frame_rate: String,
}

/// The container section of the probing tool's report.
#[derive(Debug)]
pub struct ProbeFormat {
    /// The duration in seconds, as decimal text.
    pub duration: String,
}

/// The probing tool's report on a file; the first stream is taken to be the
/// video stream.
#[derive(Debug)]
pub struct ProbeOutput {
    pub streams: Vec<ProbeStream>,
    pub format: ProbeFormat,
}

/// What is known of a video file.
#[derive(Debug)]
pub struct VideoMetadata {
    pub file_path: String,
    /// The duration in seconds, exactly as the probing tool wrote it.
    pub duration: Decimal,
    pub fps: FrameRate,
}

/// A frame rate text that this library accepts whose value is above zero:
/// a non-zero numerator, and numerator and denominator of the same sign.
pub open spec fn positive_rate(t: Seq<char>) -> bool {
    &&& valid_rate(t)
    &&& match rate_parts(t) {
        Some(((num_negative, num), (den_negative, _))) => num.0 > 0 && num_negative
            == den_negative,
        None => false,
    }
}

/// Reads a duration in seconds (`S`, `S.F`, optionally with an exponent),
/// keeping every digit.
pub fn parse_duration(text: &str) -> (r: Option<Decimal>)
    ensures
        match r {
            Some(d) => number_of(text@) == Some(d.parts()),
            None => !fits_number(text@),
        },
{
    let n = text.unicode_len();
    assert(text@.subrange(0, n as int) =~= text@);
    parse_number(text, 0, n)
}

/// What mapping the report `output` on the file `file_path` gives: the
/// duration is read first, then the first stream's frame rate, which must
/// be above zero.
pub open spec fn metadata_result(
    file_path: Seq<char>,
    output: ProbeOutput,
    r: Result<VideoMetadata, VideoError>,
) -> bool {
    let duration = output.format.duration@;
    let streams = output.streams@;
    if !fits_number(duration) {
        r matches Err(VideoError::MalformedOutput)
    } else if streams.len() == 0 {
        r matches Err(VideoError::NoVideoStream)
    } else if !positive_rate(streams[0].avg_frame_rate@) {
        r matches Err(VideoError::InvalidFrameRate(t)) && t@ == streams[0].avg_frame_rate@
    } else {
        match r {
            Ok(m) => {
                &&& m.file_path@ == file_path
                &&& number_of(duration) == Some(m.duration.parts())
                &&& rate_parts(streams[0].avg_frame_rate@) == Some(m.fps.parts())
                &&& m.fps.wf()
                &&& m.fps.num.magnitude.mantissa > 0
                &&& m.fps.num.negative == m.fps.den.negative
            },
            Err(_) => false,
        }
    }
}

/// Maps the probing tool's report on `file_path` to the file's metadata.
pub fn metadata_from_output(file_path: &str, output: &ProbeOutput) -> (r: Result<
    VideoMetadata,
    VideoError,
>)
    ensures
        metadata_result(file_path@, *output, r),
{
    let duration = match parse_duration(output.format.duration.as_str()) {
        Some(d) => d,
        None => {
            return Err(VideoError::MalformedOutput);
        },
    };
    if output.streams.len() == 0 {
        return Err(VideoError::NoVideoStream);
    }
    let rate = output.streams[0].avg_frame_rate.as_str();
    let fps = match parse_fps(rate) {
        Ok(f) => f,
        Err(e) => {
            return Err(e);
        },
    };
    if fps.num.magnitude.mantissa == 0 || fps.num.negative != fps.den.negative {
        return Err(VideoError::InvalidFrameRate(String::from_str(rate)));
    }
    Ok(VideoMetadata { file_path: String::from_str(file_path), duration, fps })
}

/// The arguments that make the probing tool report, as JSON, the container's
/// duration and the first video stream's average frame rate of `file_path`.
pub fn probe_args(file_path: &str) -> (r: Vec<String>)
    ensures
        texts(r@) == seq![
            "-v"@,
            "error"@,
            "-select_streams"@,
            "v:0"@,
            "-show_entries"@,
            "format=duration"@,
            "-show_entries"@,
            "stream=avg_frame_rate"@,
            "-of"@,
            "json"@,
            file_path@,
        ],
{
    let mut r: Vec<String> = Vec::new();
    r.push(String::from_str("-v"));
    r.push(String::from_str("error"));
    r.push(String::from_str("-select_streams"));
    r.push(String::from_str("v:0"));
    r.push(String::from_str("-show_entries"));
    r.push(String::from_str("format=duration"));
    r.push(String::from_str("-show_entries"));
    r.push(String::from_str("stream=avg_frame_rate"));
    r.push(String::from_str("-of"));
    r.push(String::from_str("json"));
    r.push(String::from_str(file_path));
    assert(texts(r@) =~= seq![
        "-v"@,
        "error"@,
        "-select_streams"@,
        "v:0"@,
        "-show_entries"@,
        "format=duration"@,
        "-show_entries"@,
        "stream=avg_frame_rate"@,
        "-of"@,
        "json"@,
        file_path@,
    ]);
    r
}

/// Decides the result of probing `file_path` from how the probing tool's run
/// ended and from its report, `None` when the report was not of the expected
/// shape.
pub fn probe_result(file_path: &str, outcome: RunOutcome, output: Option<ProbeOutput>) -> (r:
    Result<VideoMetadata, VideoError>)
    ensures
        match outcome {
            RunOutcome::NotStarted => r matches Err(VideoError::ToolUnavailable),
            RunOutcome::Exited { code, stderr } => {
                if !outcome.succeeded() {
                    r matches Err(VideoError::ProbeFailed { code: c, stderr: e }) && c == code
                        && e@ == stderr@
                } else {
                    match output {
                        None => r matches Err(VideoError::MalformedOutput),
                        Some(o) => metadata_result(file_path@, o, r),
                    }
                }
            },
        },
{
    match outcome {
        RunOutcome::NotStarted => Err(VideoError::ToolUnavailable),
        RunOutcome::Exited { code, stderr } => {
            match code {
                Some(0i32) => {},
                _ => {
                    return Err(VideoError::ProbeFailed { code, stderr });
                },
            }
            match output {
                None => Err(VideoError::MalformedOutput),
                Some(o) => metadata_from_output(file_path, &o),
            }
        },
    }
}


/// A report whose duration reads well but which lists no stream maps to
/// `NoVideoStream`, whatever the file.
pub proof fn lemma_no_stream(
    file_path: Seq<char>,
    output: ProbeOutput,
    r: Result<VideoMetadata, VideoError>,
)
    requires
        output.streams@.len() == 0,
        fits_number(output.format.duration@),
        metadata_result(file_path, output, r),
    ensures
        r matches Err(VideoError::NoVideoStream),
{
}

} // verus!
