//! Parses kept per raw message, keyed by the message id and checked against
//! a digest of the text, group and sender they were made from.
use vstd::prelude::*;

use sha2::{Digest, Sha256};

use crate::parser::llm_client::ParseContext;
use crate::parser::parsed_event::ParsedMessage;
use crate::replay::replay_options::ParserMode;
use crate::text::{chars_of, str_eq, string_of};

verus! {

// ---------------------------------------------------------------------------
// Input digest
// ---------------------------------------------------------------------------
/// Name for the SHA-256 digest of the UTF-8 bytes of `text`, then
/// `group_id`, then `user_id`, hashed as one stream.
pub uninterp spec fn sha256_of_parts(text: Seq<char>, group_id: Seq<char>, user_id: Seq<char>) -> Seq<u8>;

/// Calls `sha2::Sha256`: `new`, then `update` with the bytes of `text`,
/// `group_id` and `user_id` in turn, then `finalize`. The digest is 32 bytes
/// (`Sha256`'s output size); which bytes is left to the name.
#[verifier::external_body]
fn sha256_parts(text: &str, group_id: &str, user_id: &str) -> (r: Vec<u8>)
    ensures
        r@ == sha256_of_parts(text@, group_id@, user_id@),
        r@.len() == 32,
{
    let mut hasher = Sha256::new();
    hasher.update(text.as_bytes());
    hasher.update(group_id.as_bytes());
    hasher.update(user_id.as_bytes());
    hasher.finalize().to_vec()
}

/// Lower-case hexadecimal digit of `n < 16`.
pub open spec fn hex_digit(n: nat) -> char {
    if n < 10 {
        ((48 + n) as u32) as char
    } else {
        ((87 + n) as u32) as char
    }
}

/// Each byte as two lower-case hexadecimal digits, high nibble first.
pub open spec fn hex_of(bytes: Seq<u8>) -> Seq<char>
    decreases bytes.len(),
{
    if bytes.len() == 0 {
        Seq::empty()
    } else {
        let b = bytes.last();
        hex_of(bytes.drop_last()) + seq![hex_digit((b / 16) as nat), hex_digit((b % 16) as nat)]
    }
}

/// The hexadecimal digit as a character.
fn hex_char(n: u8) -> (r: char)
    requires
        n < 16,
    ensures
        r == hex_digit(n as nat),
{
    if n < 10 {
        crate::text::char_from_ascii(48 + n as u32)
    } else {
        crate::text::char_from_ascii(87 + n as u32)
    }
}

/// The digest as the input hash text: `sha256:` and the digest in
/// lower-case hexadecimal.
pub fn format_input_hash(digest: &[u8]) -> (r: String)
    ensures
        r@ == "sha256:"@ + hex_of(digest@),
{
    let mut out = chars_of("sha256:");
    let ghost head = out@;
    let mut i: usize = 0;
    while i < digest.len()
        invariant
            i <= digest@.len(),
            out@ == head + hex_of(digest@.take(i as int)),
        decreases digest@.len() - i,
    {
        let b = digest[i];
        proof {
            assert(digest@.take(i + 1).drop_last() =~= digest@.take(i as int));
        }
        out.push(hex_char(b / 16));
        out.push(hex_char(b % 16));
        assert(out@ =~= head + hex_of(digest@.take(i + 1)));
        i = i + 1;
    }
    assert(digest@.take(digest@.len() as int) =~= digest@);
    string_of(&out)
}

/// The digest of a message's text, group and sender that a cached parse is
/// checked against: `sha256:` and 64 hexadecimal digits.
pub fn compute_input_hash(text: &str, group_id: &str, user_id: &str) -> (r: String)
    ensures
        r@ == "sha256:"@ + hex_of(sha256_of_parts(text@, group_id@, user_id@)),
{
    let digest = sha256_parts(text, group_id, user_id);
    format_input_hash(&digest)
}

// ---------------------------------------------------------------------------
// The cache
// ---------------------------------------------------------------------------
/// A parse kept for a raw message, with the digest of its input.
pub struct ParseCacheEntry {
    pub raw_message_id: String,
    pub input_hash: String,
    pub parsed_message: ParsedMessage,
    pub parser_version: String,
    pub model_name: String,
}

impl ParseCacheEntry {
    /// An entry for the parse of a message, with the digest of its text,
    /// group and sender.
    pub fn new(
        raw_message_id: String,
        text: &str,
        group_id: &str,
        user_id: &str,
        parsed_message: ParsedMessage,
        parser_version: String,
        model_name: String,
    ) -> (r: Self)
        ensures
            r.raw_message_id == raw_message_id,
            r.input_hash@ == "sha256:"@ + hex_of(sha256_of_parts(text@, group_id@, user_id@)),
            r.parsed_message == parsed_message,
            r.parser_version == parser_version,
            r.model_name == model_name,
    {
        let input_hash = compute_input_hash(text, group_id, user_id);
        ParseCacheEntry { raw_message_id, input_hash, parsed_message, parser_version, model_name }
    }
}

/// No two entries are for the same raw message.
pub open spec fn ids_distinct(es: Seq<ParseCacheEntry>) -> bool {
    forall|p: int, q: int| 0 <= p < q < es.len() ==> es[p].raw_message_id@ != es[q].raw_message_id@
}

/// Index of the entry for raw message `id`, or -1.
pub open spec fn entry_index(es: Seq<ParseCacheEntry>, id: Seq<char>) -> int
    decreases es.len(),
{
    if es.len() == 0 {
        -1
    } else if entry_index(es.drop_last(), id) >= 0 {
        entry_index(es.drop_last(), id)
    } else if es.last().raw_message_id@ == id {
        es.len() - 1
    } else {
        -1
    }
}

/// The entries after storing `e`: it replaces the entry for its message,
/// or is appended when there is none.
pub open spec fn stored(es: Seq<ParseCacheEntry>, e: ParseCacheEntry) -> Seq<ParseCacheEntry> {
    let k = entry_index(es, e.raw_message_id@);
    if k >= 0 {
        es.update(k, e)
    } else {
        es.push(e)
    }
}

/// The cached entry for raw message `id` whose input digest is `hash`.
pub open spec fn cached(es: Seq<ParseCacheEntry>, id: Seq<char>, hash: Seq<char>) -> Option<ParseCacheEntry> {
    let k = entry_index(es, id);
    if k >= 0 && es[k].input_hash@ == hash {
        Some(es[k])
    } else {
        None
    }
}

proof fn lemma_entry_index(es: Seq<ParseCacheEntry>, id: Seq<char>)
    ensures
        -1 <= entry_index(es, id) < es.len(),
        entry_index(es, id) >= 0 ==> es[entry_index(es, id)].raw_message_id@ == id,
        entry_index(es, id) < 0 ==> forall|q: int| 0 <= q < es.len() ==> es[q].raw_message_id@ != id,
    decreases es.len(),
{
    if es.len() > 0 {
        lemma_entry_index(es.drop_last(), id);
        assert forall|q: int| 0 <= q < es.len() - 1 implies es[q] == es.drop_last()[q] by {}
    }
}

proof fn lemma_entry_index_at(es: Seq<ParseCacheEntry>, k: int)
    requires
        ids_distinct(es),
        0 <= k < es.len(),
    ensures
        entry_index(es, es[k].raw_message_id@) == k,
{
    let id = es[k].raw_message_id@;
    lemma_entry_index(es, id);
    let j = entry_index(es, id);
    assert(j >= 0) by {
        if j < 0 {
            assert(es[k].raw_message_id@ != id);
        }
    }
}

proof fn lemma_stored_distinct(es: Seq<ParseCacheEntry>, e: ParseCacheEntry)
    requires
        ids_distinct(es),
    ensures
        ids_distinct(stored(es, e)),
{
    lemma_entry_index(es, e.raw_message_id@);
}

/// A read gives back what a write wrote: after storing `e`, the entry for
/// its message is `e` (found under its own digest), and every other
/// message's entry is as before.
pub proof fn read_after_store(es: Seq<ParseCacheEntry>, e: ParseCacheEntry, id: Seq<char>, hash: Seq<char>)
    requires
        ids_distinct(es),
    ensures
        ids_distinct(stored(es, e)),
        cached(stored(es, e), e.raw_message_id@, e.input_hash@) == Some(e),
        id != e.raw_message_id@ ==> cached(stored(es, e), id, hash) == cached(es, id, hash),
{
    let s = stored(es, e);
    lemma_stored_distinct(es, e);
    lemma_entry_index(es, e.raw_message_id@);
    let k = entry_index(es, e.raw_message_id@);
    let j = if k >= 0 {
        k
    } else {
        es.len() as int
    };
    assert(s[j] == e);
    lemma_entry_index_at(s, j);
    if id != e.raw_message_id@ {
        lemma_entry_index(es, id);
        lemma_entry_index(s, id);
        let a = entry_index(es, id);
        let b = entry_index(s, id);
        if a >= 0 {
            assert(s[a] == es[a]);
            lemma_entry_index_at(s, a);
        } else if b >= 0 {
            assert(b != j);
            assert(s[b] == es[b]);
        }
    }
}

/// Parses kept per raw message; at most one entry per message.
pub struct ParseCache {
    entries: Vec<ParseCacheEntry>,
}

impl ParseCache {
    #[verifier::type_invariant]
    spec fn one_entry_per_message(self) -> bool {
        ids_distinct(self.entries@)
    }

    /// The entries, in the order they were first stored.
    pub closed spec fn entries(self) -> Seq<ParseCacheEntry> {
        self.entries@
    }

    /// The empty cache.
    pub fn new() -> (r: Self)
        ensures
            r.entries().len() == 0,
            ids_distinct(r.entries()),
    {
        ParseCache { entries: Vec::new() }
    }

    /// The entry for `raw_message_id` when it was made from input with the
    /// digest `input_hash`.
    pub fn get(&self, raw_message_id: &str, input_hash: &str) -> (r: Option<&ParseCacheEntry>)
        ensures
            match cached(self.entries(), raw_message_id@, input_hash@) {
                Some(e) => r matches Some(x) && *x == e,
                None => r is None,
            },
    {
        match self.find(raw_message_id) {
            Some(k) => {
                let e = &self.entries[k];
                if str_eq(e.input_hash.as_str(), input_hash) {
                    Some(e)
                } else {
                    None
                }
            },
            None => None,
        }
    }

    /// Index of the entry for `id`.
    fn find(&self, id: &str) -> (r: Option<usize>)
        ensures
            match r {
                Some(k) => k == entry_index(self.entries(), id@) && k < self.entries().len(),
                None => entry_index(self.entries(), id@) < 0,
            },
    {
        proof {
            use_type_invariant(self);
            lemma_entry_index(self.entries@, id@);
        }
        let mut k: usize = 0;
        while k < self.entries.len()
            invariant
                k <= self.entries@.len(),
                ids_distinct(self.entries@),
                forall|q: int| 0 <= q < k ==> self.entries@[q].raw_message_id@ != id@,
            decreases self.entries@.len() - k,
        {
            if str_eq(self.entries[k].raw_message_id.as_str(), id) {
                proof {
                    lemma_entry_index_at(self.entries@, k as int);
                }
                return Some(k);
            }
            k = k + 1;
        }
        proof {
            if entry_index(self.entries@, id@) >= 0 {
                assert(self.entries@[entry_index(self.entries@, id@)].raw_message_id@ == id@);
            }
        }
        None
    }

    /// Stores `entry`, replacing the entry for the same raw message.
    pub fn insert(&mut self, entry: ParseCacheEntry)
        ensures
            final(self).entries() == stored(old(self).entries(), entry),
            ids_distinct(final(self).entries()),
    {
        proof {
            use_type_invariant(&*self);
            lemma_stored_distinct(self.entries@, entry);
        }
        let found = self.find(entry.raw_message_id.as_str());
        let mut es: Vec<ParseCacheEntry> = Vec::new();
        std::mem::swap(&mut es, &mut self.entries);
        match found {
            Some(k) => {
                es.set(k, entry);
            },
            None => {
                es.push(entry);
            },
        }
        self.entries = es;
    }

    /// Number of entries.
    pub fn len(&self) -> (r: usize)
        ensures
            r == self.entries().len(),
            ids_distinct(self.entries()),
    {
        proof {
            use_type_invariant(self);
        }
        self.entries.len()
    }
}

// ---------------------------------------------------------------------------
// Parsing under a parser mode
// ---------------------------------------------------------------------------
/// The input digest of a message to parse.
pub open spec fn input_hash_of(ctx: ParseContext) -> Seq<char> {
    "sha256:"@ + hex_of(sha256_of_parts(ctx.text@, ctx.group_id@, ctx.user_id@))
}

/// What parsing a message under a mode comes to before any model is asked.
pub enum ParseStep<'a> {
    /// The cached parse of this message and input.
    Cached(&'a ParsedMessage),
    /// The mode reads only the cache, and it holds no parse of this input.
    CacheMiss,
    /// The mode has no parser of its own (`RuleOnly`).
    NotImplemented,
    /// The model is to parse the message.
    AskModel,
}

/// The decision of a parse under `mode`: the live model is always asked;
/// the cached mode answers from the cache or misses; the hybrid mode answers
/// from the cache and else asks the model; the rule-only mode has no parser.
pub fn parse_step<'a>(mode: &ParserMode, cache: &'a ParseCache, ctx: &ParseContext) -> (r: ParseStep<'a>)
    ensures
        match mode {
            ParserMode::LiveLlm => r is AskModel,
            ParserMode::RuleOnly => r is NotImplemented,
            ParserMode::CachedParse { .. } => match cached(cache.entries(), ctx.message_id@, input_hash_of(*ctx)) {
                Some(e) => r matches ParseStep::Cached(p) && *p == e.parsed_message,
                None => r is CacheMiss,
            },
            ParserMode::HybridCachedThenLlm { .. } => match cached(cache.entries(), ctx.message_id@, input_hash_of(*ctx)) {
                Some(e) => r matches ParseStep::Cached(p) && *p == e.parsed_message,
                None => r is AskModel,
            },
        },
{
    match mode {
        ParserMode::LiveLlm => ParseStep::AskModel,
        ParserMode::RuleOnly => ParseStep::NotImplemented,
        ParserMode::CachedParse { .. } => {
            let hash = compute_input_hash(ctx.text.as_str(), ctx.group_id.as_str(), ctx.user_id.as_str());
            match cache.get(ctx.message_id.as_str(), hash.as_str()) {
                Some(e) => ParseStep::Cached(&e.parsed_message),
                None => ParseStep::CacheMiss,
            }
        },
        ParserMode::HybridCachedThenLlm { .. } => {
            let hash = compute_input_hash(ctx.text.as_str(), ctx.group_id.as_str(), ctx.user_id.as_str());
            match cache.get(ctx.message_id.as_str(), hash.as_str()) {
                Some(e) => ParseStep::Cached(&e.parsed_message),
                None => ParseStep::AskModel,
            }
        },
    }
}

/// After the model parsed a message: the hybrid mode keeps the parse in the
/// cache under the message id and input digest (no parser version, the
/// model's name); the other modes keep nothing.
pub fn remember_model_parse(
    mode: &ParserMode,
    cache: &mut ParseCache,
    ctx: &ParseContext,
    parsed: ParsedMessage,
    model: String,
)
    ensures
        match mode {
            ParserMode::HybridCachedThenLlm { .. } => exists|e: ParseCacheEntry|
                final(cache).entries() == stored(old(cache).entries(), e) && e.raw_message_id@
                    == ctx.message_id@ && e.input_hash@ == input_hash_of(*ctx) && e.parsed_message
                    == parsed && e.parser_version@.len() == 0 && e.model_name == model,
            _ => final(cache).entries() == old(cache).entries(),
        },
{
    match mode {
        ParserMode::HybridCachedThenLlm { .. } => {
            let entry = ParseCacheEntry::new(
                ctx.message_id.clone(),
                ctx.text.as_str(),
                ctx.group_id.as_str(),
                ctx.user_id.as_str(),
                parsed,
                String::new(),
                model,
            );
            cache.insert(entry);
        },
        _ => {},
    }
}

} // verus!
