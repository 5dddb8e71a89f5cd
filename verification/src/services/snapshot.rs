//! Snapshot export requests.
use vstd::prelude::*;

use crate::replay::session::ReplayOverrides;

verus! {

/// A request to export a snapshot: the replay overrides, the output
/// directory, and the format (`file` for one JSON file, else a directory).
pub struct ExportBody {
    pub overrides: ReplayOverrides,
    pub out_dir: Option<String>,
    pub format: Option<String>,
}

} // verus!
