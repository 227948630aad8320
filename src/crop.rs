//! The selected source file, and the decisions of a crop: which request is
//! accepted, which arguments the cropping tool gets, and what its run means.
//!
//! The cropping tool copies the streams without re-encoding, so it snaps the
//! cut to the nearest keyframe: the trim is lossless but not frame-accurate.

use crate::error::VideoError;
use crate::outcome::{texts, RunOutcome};
use crate::numeral::{number_of, pow10, Decimal};
use crate::probe::{metadata_result, ProbeOutput, VideoMetadata};
use crate::rate::rate_parts;
use crate::timefmt::{format_time, time_text};
use vstd::prelude::*;

verus! {

/// The currently selected source file, if any; the last selection wins.
#[derive(Debug)]
pub struct SelectionState {
    path: Option<String>,
}

impl View for SelectionState {
    type V = Option<Seq<char>>;

    closed spec fn view(&self) -> Option<Seq<char>> {
        match self.path {
            Some(p) => Some(p@),
            None => None,
        }
    }
}

impl SelectionState {
    /// A state with nothing selected.
    pub fn new() -> (r: SelectionState)
        ensures
            r@ is None,
    {
        SelectionState { path: None }
    }

    /// Selects `path`, replacing any earlier selection.
    pub fn set(&mut self, path: String)
        ensures
            final(self)@ == Some(path@),
    {
        self.path = Some(path);
    }

    /// A copy of the selected path, if any.
    pub fn get(&self) -> (r: Option<String>)
        ensures
            match r {
                Some(p) => self@ == Some(p@),
                None => self@ is None,
            },
    {
        match &self.path {
            Some(p) => Some(p.clone()),
            None => None,
        }
    }
}

/// Takes the file picker's answer: a chosen path becomes the selection and
/// is returned; no answer, or an empty one, is a cancellation that leaves
/// the selection as it was.
pub fn select_file(state: &mut SelectionState, picked: Option<String>) -> (r: Result<
    String,
    VideoError,
>)
    ensures
        match picked {
            Some(p) if p@.len() > 0 => {
                &&& r matches Ok(q) && q@ == p@
                &&& final(state)@ == Some(p@)
            },
            _ => {
                &&& r matches Err(VideoError::Cancelled)
                &&& final(state)@ == old(state)@
            },
        },
{
    match picked {
        Some(p) => {
            if p.as_str().unicode_len() == 0 {
                return Err(VideoError::Cancelled);
            }
            let q = p.clone();
            state.set(p);
            Ok(q)
        },
        None => Err(VideoError::Cancelled),
    }
}

/// Checks a crop request against the selection, before a destination is
/// asked for: the range first, then the selection. Returns the source path.
pub fn check_crop(selection: &SelectionState, start_ms: u64, end_ms: u64) -> (r: Result<
    String,
    VideoError,
>)
    ensures
        start_ms >= end_ms ==> r matches Err(VideoError::InvalidRange),
        start_ms < end_ms && selection@ is None ==> r matches Err(VideoError::NoSelection),
        start_ms < end_ms && selection@ is Some ==> (r matches Ok(p) && selection@ == Some(p@)),
{
    if start_ms >= end_ms {
        return Err(VideoError::InvalidRange);
    }
    match selection.get() {
        Some(p) => Ok(p),
        None => Err(VideoError::NoSelection),
    }
}

/// The cropping tool's arguments: seek to the start, read the source, keep
/// the span's length, copy the streams, write the destination, overwrite.
pub open spec fn crop_arg_texts(
    source: Seq<char>,
    start_ms: nat,
    end_ms: nat,
    destination: Seq<char>,
) -> Seq<Seq<char>> {
    seq![
        "-ss"@,
        time_text(start_ms),
        "-i"@,
        source,
        "-t"@,
        time_text((end_ms - start_ms) as nat),
        "-c"@,
        "copy"@,
        destination,
        "-y"@,
    ]
}

/// Builds the cropping tool's arguments for the span `start_ms..end_ms` of
/// `source`, written to `destination`.
pub fn crop_args(source: &str, start_ms: u64, end_ms: u64, destination: &str) -> (r: Vec<String>)
    requires
        start_ms < end_ms,
    ensures
        texts(r@) == crop_arg_texts(source@, start_ms as nat, end_ms as nat, destination@),
{
    let mut r: Vec<String> = Vec::new();
    r.push(String::from_str("-ss"));
    r.push(format_time(start_ms));
    r.push(String::from_str("-i"));
    r.push(String::from_str(source));
    r.push(String::from_str("-t"));
    r.push(format_time(end_ms - start_ms));
    r.push(String::from_str("-c"));
    r.push(String::from_str("copy"));
    r.push(String::from_str(destination));
    r.push(String::from_str("-y"));
    assert(texts(r@) =~= crop_arg_texts(
        source@,
        start_ms as nat,
        end_ms as nat,
        destination@,
    ));
    r
}

/// Validates a crop and builds the cropping tool's arguments. The first
/// failure wins: the range, then the selection, then the destination.
pub fn crop_command(
    selection: &SelectionState,
    start_ms: u64,
    end_ms: u64,
    destination: Option<String>,
) -> (r: Result<Vec<String>, VideoError>)
    ensures
        start_ms >= end_ms ==> r matches Err(VideoError::InvalidRange),
        start_ms < end_ms && selection@ is None ==> r matches Err(VideoError::NoSelection),
        start_ms < end_ms && selection@ is Some ==> match destination {
            Some(d) if d@.len() > 0 => (r matches Ok(args) && texts(args@) == crop_arg_texts(
                selection@->0,
                start_ms as nat,
                end_ms as nat,
                d@,
            )),
            _ => r matches Err(VideoError::NoDestinationSelected),
        },
{
    let source = match check_crop(selection, start_ms, end_ms) {
        Ok(p) => p,
        Err(e) => {
            return Err(e);
        },
    };
    match destination {
        Some(d) => {
            if d.as_str().unicode_len() == 0 {
                return Err(VideoError::NoDestinationSelected);
            }
            Ok(crop_args(source.as_str(), start_ms, end_ms, d.as_str()))
        },
        None => Err(VideoError::NoDestinationSelected),
    }
}

/// Decides the result of a crop from how the cropping tool's run ended:
/// the destination on success.
pub fn crop_result(destination: String, outcome: RunOutcome) -> (r: Result<String, VideoError>)
    ensures
        match outcome {
            RunOutcome::NotStarted => r matches Err(VideoError::ToolUnavailable),
            RunOutcome::Exited { code, .. } => if outcome.succeeded() {
                r matches Ok(p) && p@ == destination@
            } else {
                r matches Err(VideoError::CropFailed { code: c }) && c == code
            },
        },
{
    match outcome {
        RunOutcome::NotStarted => Err(VideoError::ToolUnavailable),
        RunOutcome::Exited { code, .. } => match code {
            Some(0i32) => Ok(destination),
            _ => Err(VideoError::CropFailed { code }),
        },
    }
}

/// `half_ms` is half of `d` seconds, in whole milliseconds rounded down.
pub open spec fn half_of_in_ms(d: Decimal, half_ms: nat) -> bool {
    if d.scale >= 0 {
        let p = pow10(d.scale as nat);
        2 * half_ms * p <= 1000 * d.mantissa && 1000 * d.mantissa < 2 * (half_ms + 1) * p
    } else {
        let v = 1000 * d.mantissa * pow10((-d.scale) as nat);
        2 * half_ms <= v && v < 2 * (half_ms + 1)
    }
}

/// Selecting `path`, probing it, then cropping from the start to half its
/// duration (`half_ms`, rounded down to whole milliseconds) into
/// `destination`: the metadata names `path` and holds exactly the reported
/// duration and frame rate, and the cropping tool is asked to read `path`,
/// seek to `00:00:00.000` and keep `format_time(half_ms)`.
#[verifier::rlimit(40)]
pub proof fn lemma_select_probe_crop(
    path: Seq<char>,
    state: SelectionState,
    output: ProbeOutput,
    probed: Result<VideoMetadata, VideoError>,
    half_ms: nat,
    destination: Seq<char>,
    args: Seq<String>,
)
    requires
        state@ == Some(path),
        metadata_result(path, output, probed),
        probed is Ok,
        half_of_in_ms(probed->Ok_0.duration, half_ms),
        half_ms > 0,
        texts(args) == crop_arg_texts(state@->0, 0, half_ms, destination),
    ensures
        probed->Ok_0.file_path@ == path,
        number_of(output.format.duration@) == Some(probed->Ok_0.duration.parts()),
        rate_parts(output.streams@[0].avg_frame_rate@) == Some(probed->Ok_0.fps.parts()),
        probed->Ok_0.fps.num.magnitude.mantissa > 0,
        probed->Ok_0.fps.num.negative == probed->Ok_0.fps.den.negative,
        args.len() == 10,
        args[1]@ == "00:00:00.000"@,
        args[3]@ == path,
        args[5]@ == time_text(half_ms),
        args[8]@ == destination,
{
    reveal_strlit("00:00:00.000");
    let a = texts(args);
    assert(a.len() == 10);
    assert(a[1] == args[1]@);
    assert(a[3] == args[3]@);
    assert(a[5] == args[5]@);
    assert(a[8] == args[8]@);
    assert(time_text(0) =~= "00:00:00.000"@);
}

} // verus!
