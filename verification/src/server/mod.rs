//! The rules of the origins that `ft` serves itself.

pub mod http;
pub mod listing;
pub mod static_server;
pub mod drop_server;
pub mod hook_server;
