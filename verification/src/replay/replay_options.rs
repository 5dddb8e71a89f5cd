//! How a replay parses messages.
use vstd::prelude::*;

verus! {

/// The parser a replay uses.
pub enum ParserMode {
    LiveLlm,
    CachedParse { cache_path: String },
    RuleOnly,
    HybridCachedThenLlm { cache_path: String },
}

impl Default for ParserMode {
    /// The live language-model parser.
    fn default() -> (r: ParserMode)
        ensures
            r is LiveLlm,
    {
        ParserMode::LiveLlm
    }
}

} // verus!
