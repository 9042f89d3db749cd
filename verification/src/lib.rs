//! The logic of a small dump browser: a server that stores posted JSON
//! documents and a terminal viewer that lists, filters and previews them.

pub mod text;
pub mod size;
pub mod natural;
pub mod tags;
pub mod json;
pub mod metadata;
pub mod names;
pub mod clock;
pub mod listing;
pub mod browser;
pub mod keys;
pub mod width;
pub mod render;
pub mod layout;
pub mod status;
pub mod preview;
pub mod server;
pub mod poll;
pub mod pager;
pub mod shortlist;
