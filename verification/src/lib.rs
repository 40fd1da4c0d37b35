//! A small key-value service: the wire frames that clients and server
//! exchange, the commands built on them, and the table the server keeps.
//!
//! - [`grammar`]: the wire grammar, and [`wire_laws`]: what holds of it.
//! - [`frame`], [`parse`], [`connection`]: frames, and reading and
//!   writing them.
//! - [`command`]: requests, as frames and on the table.
//! - [`store`]: the table and its snapshot.
//! - [`server`], [`client`]: one request and its response, from either end.
//! - [`payload`], [`json`]: what is assumed of the crates underneath.

use vstd::prelude::*;

pub mod error;
pub mod payload;
pub mod command;
pub mod frame;
pub mod grammar;
pub mod parse;
pub mod wire_laws;
pub mod connection;
pub mod json;
pub mod store;
pub mod server;
pub mod client;

pub use command::{Command, CommandType};
pub use error::{CommandError, KvsError};
pub use frame::Frame;
pub use store::DbControl;

verus! {

/// The TCP port a server listens on when none is given.
pub const DEFAULT_PORT: u16 = 6379;

} // verus!
