//! Exposing local services through temporary tunnels: the rules behind the
//! `ft` command.
#![allow(unused_imports)]

pub mod bytes;
pub mod clock;
pub mod cloudflared;
pub mod cmd;
pub mod model;
pub mod name;
pub mod order;
pub mod output;
pub mod path;
pub mod percent;
pub mod port;
pub mod proc;
pub mod registry;
pub mod server;
pub mod spawn;
pub mod state;
pub mod text;
