//! Verified core of a small web crawler: command-line parsing, URL
//! composition, link extraction from page bodies and the decisions taken
//! around each fetch.

pub mod text;
pub mod urlparts;
pub mod params;
pub mod help;
pub mod httpio;
pub mod auth;
