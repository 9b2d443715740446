//! What the library promises as a whole: each law relates what goes into an operation to what
//! comes out of it, for all inputs.

pub mod answers;
pub mod bangumi;
pub mod broker;
pub mod calendar;
pub mod collection;
pub mod downloads;
pub mod feeds;
pub mod files;
pub mod markup;
pub mod records;
pub mod rss;
pub mod rules;
pub mod settings;
pub mod sources;
pub mod texts;
