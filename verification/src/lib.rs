//! Mizuki: anime tracking, subscription feeds and download management.

pub mod bangumi;
pub mod bgmlist;
pub mod broker;
pub mod bt;
pub mod calendar;
pub mod clock;
pub mod collection;
pub mod covers;
pub mod db;
pub mod downloads;
pub mod feeds;
pub mod files;
pub mod ids;
pub mod json;
pub mod laws;
pub mod links;
pub mod markup;
pub mod matcher;
pub mod models;
pub mod numbers;
pub mod order;
pub mod rows;
pub mod rss;
pub mod settings;
pub mod stored;
pub mod subscriptions;
pub mod sync_pass;
pub mod table;
pub mod text;
