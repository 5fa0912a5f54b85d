//! Shows a game's round logs to the public.
//!
//! Of a game log, the IP addresses that stand in it, the word of a login that
//! tells the player's address and computer, and the entries that are not for the
//! public are taken out. Files of any other kind are sanitized by the program
//! around the crate, or not shown.
//!
//! The crate holds the rules; reading files, walking directories and talking
//! HTTP are left to the program around it.
//!
//! * [`parsers`]: what is published of a log.
//! * [`page`], [`listing`]: the HTML pages, and what the listing of a directory
//!   shows.
//! * [`request`], [`route`]: how a request is answered, step by step.
//! * [`paths`], [`text`], [`patterns`]: Unix paths, texts and regular expressions.
//! * [`laws`]: what holds of the library as a whole.

pub mod laws;
pub mod listing;
pub mod page;
pub mod parsers;
pub mod paths;
pub mod patterns;
pub mod request;
pub mod route;
pub mod text;
