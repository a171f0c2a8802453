//! The logic of a terminal multiplexer: what the client makes of keystrokes and terminal output,
//! and what the server makes of PTY output, subscribers and requests.
pub mod attach;
pub mod cli;
pub mod commands;
pub mod order;
pub mod proto;
pub mod pty;
pub mod random;
pub mod server;
pub mod shared_bytes;
pub mod text;
