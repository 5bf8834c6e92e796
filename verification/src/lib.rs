//! Verified core of a Discord bot that tracks LiShogi games.

pub mod changelog;
pub mod commands;
pub mod discord;
pub mod error;
pub mod img;
pub mod messages;
pub mod models;
pub mod notify;
pub mod persistence;
pub mod text;
pub mod time;
pub mod ws;
