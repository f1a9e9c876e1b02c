//! A verified core for a code-intelligence protocol bridge.
//!
//! The library models the stateful parts of a Language Server Protocol
//! client: wire-format framing, request/response correlation, the client
//! lifecycle state machine, and the coordinate and response-shape
//! translation done by the analyzer facade.  Process management and all
//! I/O live outside the library and drive it with plain values.

pub mod analyzer;
pub mod bytes;
pub mod commands;
pub mod correlator;
pub mod daemon_state;
pub mod framing;
pub mod json;
pub mod lsp_client;
pub mod metrics;
pub mod refactor;

pub use analyzer::translate_position;
