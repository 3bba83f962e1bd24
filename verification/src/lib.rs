//! Verified core of a clipboard history manager: the item list, its
//! pinned-first order, hotkey parsing, date grouping and content hashing.
pub mod text;
pub mod calendar;
pub mod hotkey;
pub mod model;
pub mod store;
pub mod dates;
pub mod app;
pub mod archive;
pub mod clipboard;
pub mod platform;
pub mod theme;
pub mod picture;
pub mod laws;
