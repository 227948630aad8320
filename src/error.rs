//! The failures of selecting, probing and cropping.

use vstd::prelude::*;

verus! {

/// Why an operation did not complete. None of these is fatal: each reaches
/// the caller as a value.
#[derive(Debug)]
pub enum VideoError {
    /// A crop was asked for while no source file is selected.
    NoSelection,
    /// The crop's start is not before its end.
    InvalidRange,
    /// The external tool could not be started.
    ToolUnavailable,
    /// The probing tool ran and reported failure.
    ProbeFailed { code: Option<i32>, stderr: String },
    /// The probing tool's output is not of the expected shape, or its
    /// duration is not a number.
    MalformedOutput,
    /// The probing tool reported no stream.
    NoVideoStream,
    /// A frame rate is not of the form `N/D` with a non-zero `D`; holds the text.
    InvalidFrameRate(String),
    /// The cropping tool ran and reported failure.
    CropFailed { code: Option<i32> },
    /// No destination file was chosen for a crop.
    NoDestinationSelected,
    /// The user dismissed the file picker.
    Cancelled,
}

} // verus!
