//! A readiness-driven core for exchanging one request/response pair over a
//! byte stream.
//!
//! The crate holds the decisions of a single-threaded readiness loop and none
//! of its I/O. A driver owns the poller, the sockets and the buffers; it
//! performs the [`Action`] a machine asks for and reports what came of it as
//! an [`Input`]. [`Server`] accepts connections, reads until as many bytes as
//! its own payload holds have arrived and then writes that payload back once.
//! [`Client`] writes its payload once and then reads until as many bytes have
//! arrived.

pub mod buffer;
pub mod client;
pub mod delivery;
pub mod failure;
pub mod interest;
pub mod protocol;
pub mod readiness;
pub mod registry;
pub mod server;
pub mod token;

pub use buffer::remaining_span;
pub use client::{Client, ClientModel};
pub use failure::{ErrorClass, ExchangeError, Failure};
pub use interest::InterestSet;
pub use protocol::{Action, Exchange, Input, Phase, Source, Step};
pub use readiness::{collect_events, Readiness};
pub use registry::Registry;
pub use server::{Server, ServerModel};
pub use token::TokenMint;
