//! Locates the gacha-log URL that a game client left in its web cache.
//!
//! The library holds every decision of the lookup: where the client's log
//! lies, which directory the log names, which cache generation is the
//! latest, which URLs the cache holds and in what order they are tried,
//! and what a reply of the server means for a candidate. It touches
//! neither the file system nor the network: it names what is to be read or
//! asked, and goes on with what the caller found (see [`resolve`]).
//!
//! A lookup begins with [`resolve::get_gacha_url`] and ends with a URL that
//! holds nothing in its query but what is needed to ask for the gacha log
//! again (see [`web_url::filter_url`]).

pub mod cache_dir;
pub mod cache_scan;
pub mod candidate;
pub mod config;
pub mod data_path;
pub mod game;
pub mod resolve;
pub mod text;
pub mod validate;
pub mod web_url;

pub use game::GameType;
