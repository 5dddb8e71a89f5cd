//! Replay requests.
use vstd::prelude::*;

use crate::replay::session::ReplayOverrides;

verus! {

/// A request to replay the active round's log under these overrides.
pub struct ReplayBody {
    pub overrides: ReplayOverrides,
}

} // verus!
