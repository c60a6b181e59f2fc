//! The requests around profiles and usernames.

pub mod profile;
pub mod request;
pub mod usernames;
