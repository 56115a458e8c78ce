//! The rules of the commands.

pub mod background;
pub mod doctor;
pub mod drop;
pub mod foreground;
pub mod hook;
pub mod kill;
pub mod logs;
pub mod open;
pub mod proxy;
pub mod prune;
pub mod reserve;
pub mod run;
pub mod sanitize;
pub mod start;
