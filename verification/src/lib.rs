//! A verified client core for the Server-Sent Events (SSE) wire protocol.
//!
//! The crate has two halves: a line-oriented parser for the
//! `text/event-stream` grammar (`event`), and the connection-manager state
//! machine that drives reconnection, `Last-Event-ID` propagation and
//! response validation (`client`). All I/O stays with the embedding
//! application; the library works on plain lines, statuses and header
//! values, so every rule of the protocol is stated and proved here.

pub mod event;
pub mod client;
pub mod text;

pub use client::Client;
pub use client::Error;
pub use event::Event;
pub use event::ParseResult;
