//! What the public may read of each kind of log.

pub mod game;
pub mod ip_filtering;
