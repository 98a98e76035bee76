//! SMB2 durable handles, and the tools that test and measure them.
//!
//! - [`durable`] opens files so that the open survives a disconnect, and claims such opens back,
//!   on two independent proofs that the handle is still the same file.
//! - [`fault_injection`] holds servers that stay connected and stop cooperating, and servers that
//!   go away and come back.
//! - [`args`], [`config`], [`plan`] and [`report`] are the directory-listing probe: what it is
//!   told, which directories each measurement lists, and the statistics it reports.
//!
//! Nothing here does any input or output. Where an operation needs an exchange with a server, one
//! function says what to send and another says what the answer means.

pub mod args;
pub mod bytes;
pub mod config;
pub mod connection;
pub mod create;
pub mod create_context;
pub mod durable;
pub mod error;
pub mod fault_injection;
pub mod header;
pub mod plan;
pub mod report;
pub mod text;
pub mod types;
