//! Ex-style command lines: an optional range of items followed by the command text.

pub mod text;
pub mod grammar;
pub mod cmd;
pub mod laws;
pub mod dispatch;

pub use cmd::{command, number, parse_cmd, Command, Endpoint, Range};
