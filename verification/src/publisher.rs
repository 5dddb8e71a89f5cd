//! Where published board snapshots go: the object keys of the remote
//! bucket and the files of the local publisher.
use vstd::prelude::*;

use crate::domain::RoundId;
use crate::text::{append_str, chars_of, int_text, join_path, joined, push_i64, string_of};

verus! {

/// The key of a round's current snapshot: `rounds/<round_id>/current.json`.
pub open spec fn current_key_text(round_id: Seq<char>) -> Seq<char> {
    "rounds/"@ + round_id + "/current.json"@
}

/// The key of a round's snapshot at a version:
/// `rounds/<round_id>/snapshots/<version>.json`.
pub open spec fn versioned_key_text(round_id: Seq<char>, version: int) -> Seq<char> {
    "rounds/"@ + round_id + "/snapshots/"@ + int_text(version) + ".json"@
}

/// The object key under which a round's current snapshot is published.
pub fn current_key(round_id: &RoundId) -> (r: String)
    ensures
        r@ == current_key_text(round_id.0@),
{
    let mut k = chars_of("rounds/");
    append_str(&mut k, round_id.0.as_str());
    append_str(&mut k, "/current.json");
    string_of(&k)
}

/// The object key under which a round's snapshot at `version` is published.
pub fn versioned_key(round_id: &RoundId, version: i64) -> (r: String)
    ensures
        r@ == versioned_key_text(round_id.0@, version as int),
{
    let mut k = chars_of("rounds/");
    append_str(&mut k, round_id.0.as_str());
    append_str(&mut k, "/snapshots/");
    push_i64(&mut k, version);
    append_str(&mut k, ".json");
    string_of(&k)
}

/// Publishes snapshots under a local directory
/// (`<base>/rounds/<round_id>/current.json` and `.../snapshots/<version>.json`).
pub struct LocalPublisher {
    pub base_path: String,
}

impl LocalPublisher {
    /// A publisher writing under `base_path`.
    pub fn new(base_path: String) -> (r: LocalPublisher)
        ensures
            r.base_path@ == base_path@,
    {
        LocalPublisher { base_path }
    }

    /// The file of a round's current snapshot.
    pub fn current_file(&self, round_id: &RoundId) -> (r: String)
        ensures
            r@ == joined(joined(joined(self.base_path@, "rounds"@), round_id.0@), "current.json"@),
    {
        let rounds = join_path(self.base_path.as_str(), "rounds");
        let dir = join_path(rounds.as_str(), round_id.0.as_str());
        join_path(dir.as_str(), "current.json")
    }

    /// The file of a round's snapshot at `version`.
    pub fn versioned_file(&self, round_id: &RoundId, version: i64) -> (r: String)
        ensures
            r@ == joined(
                joined(joined(joined(self.base_path@, "rounds"@), round_id.0@), "snapshots"@),
                int_text(version as int) + ".json"@,
            ),
    {
        let rounds = join_path(self.base_path.as_str(), "rounds");
        let dir = join_path(rounds.as_str(), round_id.0.as_str());
        let snaps = join_path(dir.as_str(), "snapshots");
        let mut name: Vec<char> = Vec::new();
        push_i64(&mut name, version);
        append_str(&mut name, ".json");
        let name = string_of(&name);
        join_path(snaps.as_str(), name.as_str())
    }
}

} // verus!
