pub mod calendar;
pub mod config;
pub mod config_watch;
pub mod document;
pub mod engine;
pub mod events;
pub mod hamster;
pub mod markers;
pub mod pattern;
pub mod resume;
pub mod run;
pub mod schema;
pub mod source;
pub mod stream;
pub mod table;
pub mod text;
pub mod time;
