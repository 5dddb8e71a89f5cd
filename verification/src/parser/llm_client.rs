//! What the language-model parser is asked and what it answers.
use vstd::prelude::*;

use crate::domain::RoundContext;
use crate::parser::parsed_event::ParsedMessage;

verus! {

/// The model's answer: its raw text, the message parsed from it, and the model name.
pub struct LlmParseResponse {
    pub raw_text: String,
    pub parsed: ParsedMessage,
    pub model: String,
}

/// The context sent with a message to parse.
pub struct ParseRequestContext {
    pub group_id: String,
    pub user_id: String,
    pub nickname: String,
    pub message: String,
    pub active_rounds: Vec<RoundContext>,
}

/// A message to parse with where it came from.
pub struct ParseContext {
    pub text: String,
    pub group_id: String,
    pub user_id: String,
    pub message_id: String,
}

} // verus!
