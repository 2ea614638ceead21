//! Verified core of a Discord bot that follows Hololive talents: stream
//! tracking, Twitter feeds, translation routing, MChad rooms and the
//! bot's own commands.

pub mod chatbot;
pub mod commands;
pub mod config;
pub mod deepl;
pub mod discord;
pub mod emoji;
pub mod feed;
pub mod holo;
pub mod json_reply;
pub mod livetl;
pub mod mchad;
pub mod memes;
pub mod mentions;
pub mod paging;
pub mod ratelimit;
pub mod reminders;
pub mod text;
pub mod translation;
pub mod tweets;
pub mod twitter;
