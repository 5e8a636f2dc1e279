//! Vote tallying and day/night cycle logic for hosting "Town vs Mafia" games
//! in chat channels.
//!
//! - [`vote`] reads the vote directive a message opens with;
//! - [`ledger`] replays a channel's messages into each active voter's vote;
//! - [`tally`] groups the votes into buckets and ranks them;
//! - [`render`] writes vote counts, vote histories and durations as text;
//! - [`cycle`] holds the game's day/night cycle and the decisions on it;
//! - [`help`], [`embed`], [`menu`] and [`lookup`] serve the bot's messages;
//! - [`text`] holds the character classes and string helpers they share.

pub mod text;
pub mod vote;
pub mod ledger;
pub mod tally;
pub mod render;
pub mod cycle;
pub mod embed;
pub mod help;
pub mod menu;
pub mod lookup;
