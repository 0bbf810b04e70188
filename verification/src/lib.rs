//! Management of named shell commands that run inside windows of a terminal
//! multiplexer: a persistent list of command records, a JSON codec for the
//! config file that holds them, and the pure decision logic that maps a
//! subcommand plus the live multiplexer state to the actions to perform.

pub mod record;
pub mod panes;
pub mod store;
pub mod codec;
pub mod parse;
pub mod roundtrip;
pub mod dispatch;
pub mod paths;
