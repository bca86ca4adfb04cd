//! Per-player statistics merged from four count sources and rendered as
//! metrics exposition text.

pub mod error;
pub mod domain;
pub mod ordered_map;
pub mod source;
pub mod use_cases;
pub mod presenter;
pub mod handlers;
