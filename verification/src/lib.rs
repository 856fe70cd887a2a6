//! The rules of a Minecraft chat logger and of the Discord bot that shows its log.
pub mod backfill;
pub mod batch;
pub mod boards;
pub mod bridge;
pub mod chatbridge;
pub mod classify;
pub mod commands;
pub mod config;
pub mod deaths;
pub mod discover;
pub mod embeds;
pub mod feed;
pub mod formatting;
pub mod game;
pub mod heads;
pub mod json;
pub mod logger;
pub mod models;
pub mod pattern;
pub mod players;
pub mod plugins;
pub mod portal;
pub mod presence;
pub mod probe;
pub mod queries;
pub mod queue;
pub mod rows;
pub mod scrape;
pub mod settings;
pub mod shared;
pub mod standby;
pub mod stats;
pub mod stream;
pub mod table;
pub mod text;
pub mod topic;
pub mod ui;
pub mod vars;
