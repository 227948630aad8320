//! How a run of an external tool ended, as the library sees it.

use vstd::prelude::*;

verus! {

/// The end of one run of an external tool.
#[derive(Debug)]
pub enum RunOutcome {
    /// The tool could not be started (missing, not executable).
    NotStarted,
    /// The tool ran and exited; `code` is `None` when it was stopped by a
    /// signal. Exit code 0 is success.
    Exited { code: Option<i32>, stderr: String },
}

impl RunOutcome {
    pub open spec fn succeeded(&self) -> bool {
        self matches RunOutcome::Exited { code: Some(0), .. }
    }
}

/// The texts of a list of strings.
pub open spec fn texts(v: Seq<String>) -> Seq<Seq<char>> {
    v.map_values(|s: String| s@)
}

} // verus!
