//! Replies of the validation layer to a chat message.
use vstd::prelude::*;

verus! {

/// A reply to a chat message.
pub enum BotReply {
    Silent,
    Text(String),
    NeedConfirm { text: String, confirm_token: String },
    AdminOnly(String),
}

/// The text a reply carries, if any.
pub open spec fn reply_text(r: BotReply) -> Option<Seq<char>> {
    match r {
        BotReply::Silent => None,
        BotReply::Text(t) => Some(t@),
        BotReply::NeedConfirm { text, .. } => Some(text@),
        BotReply::AdminOnly(t) => Some(t@),
    }
}

impl BotReply {
    /// No reply.
    pub fn silent() -> (r: Self)
        ensures
            r is Silent,
    {
        BotReply::Silent
    }

    /// A plain text reply.
    pub fn text(s: String) -> (r: Self)
        ensures
            r == BotReply::Text(s),
    {
        BotReply::Text(s)
    }

    /// The text carried by the reply (`None` for a silent reply).
    pub fn text_content(&self) -> (r: Option<&str>)
        ensures
            match r {
                Some(t) => reply_text(*self) == Some(t@),
                None => reply_text(*self) is None,
            },
    {
        match self {
            BotReply::Text(t) => Some(t.as_str()),
            BotReply::NeedConfirm { text, .. } => Some(text.as_str()),
            BotReply::AdminOnly(t) => Some(t.as_str()),
            BotReply::Silent => None,
        }
    }
}

} // verus!
