//! Message parsing: normalization, alias matching, the rule parser and the
//! shared admission policy.
pub mod alias_match;
pub mod llm_client;
pub mod normalize;
pub mod parse_cache;
pub mod parsed_event;
pub mod policy;
pub mod reply;
pub mod rule_parser;
pub mod validation;
