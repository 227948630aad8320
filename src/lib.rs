//! Metadata extraction and lossless cropping decisions for a video-cropping
//! tool: timestamps, frame rates, probe output and crop invocations.

pub mod crop;
pub mod error;
pub mod numeral;
pub mod outcome;
pub mod probe;
pub mod rate;
pub mod timefmt;

pub use crop::{check_crop, crop_args, crop_command, crop_result, select_file, SelectionState};
pub use error::VideoError;
pub use numeral::{parse_decimal, parse_magnitude, parse_number, Decimal};
pub use outcome::RunOutcome;
pub use probe::{
    metadata_from_output, parse_duration, probe_args, probe_result, ProbeFormat, ProbeOutput,
    ProbeStream, VideoMetadata,
};
pub use rate::{parse_fps, parse_signed, FrameRate, SignedDecimal};
pub use timefmt::format_time;
