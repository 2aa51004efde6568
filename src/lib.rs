//! Tournament engine of a chat-based single-elimination GIF competition:
//! bracket construction and advancement, matchup state rules, submission
//! accounting, poll-update coalescing and the in-chat command grammar.

pub mod animation;
pub mod bracket;
pub mod command;
pub mod config;
pub mod db;
pub mod duplicates;
pub mod menu;
pub mod poll;
pub mod replies;
pub mod request;
pub mod submission;
pub mod text;
pub mod token;
pub mod tournament;
