//! What holds of the library as a whole, for all inputs.

pub mod addresses;
pub mod entries;
pub mod game;
pub mod html;
pub mod listing;
pub mod pages;
pub mod paths;
pub mod request;
pub mod route;
pub mod text;
