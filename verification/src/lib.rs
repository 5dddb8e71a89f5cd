//! Verified core of a group-buy ("排谷") claim bot: message parsing and
//! catalogue matching, round phase policy, configuration rules, replay
//! state diffs and round-structure checks.
pub mod bus;
pub mod domain;
pub mod llm;
pub mod messages;
pub mod parser;
pub mod planner;
pub mod publisher;
pub mod replay;
pub mod round;
pub mod services;
pub mod settings;
pub mod settlement;
pub mod text;
