//! Keyed badges: an in-memory store, file-sourced badges, merging, display
//! truncation, color resolution, the request handlers and the command line.

pub mod text;
pub mod badges;
pub mod json;
pub mod badge_file;
pub mod color;
pub mod schema;
pub mod handlers;
pub mod cli;
pub mod click;
pub mod http;
pub mod listen;
pub mod request_head;
